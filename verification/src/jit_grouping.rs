use vstd::prelude::*;
use crate::partition_source_data::{le_bytes, object_count_to_hash, PartitionSourceBlock, SourceDataBlocksInMemory};

verus! {

/// How source blocks are ordered before being cut into JIT partitions.
#[derive(Clone, Copy, Debug, PartialEq, Eq, Structural)]
pub enum BlockOrder {
    /// Registration order (`insert_time`, `block_id`): the order the blocks were fetched in.
    InsertTime,
    /// Event order (`begin_ticks`, `end_ticks`), ties keeping the incoming order.
    EventTime,
}

/// Object count of block `i`.
pub open spec fn nb_of(blocks: Seq<PartitionSourceBlock>, i: int) -> int {
    blocks[i].block.nb_objects as int
}

/// Insert time of block `i`.
pub open spec fn ins_of(blocks: Seq<PartitionSourceBlock>, i: int) -> i64 {
    blocks[i].block.insert_time
}

/// Total object count of `blocks[s..e]`.
pub open spec fn sum_objects(blocks: Seq<PartitionSourceBlock>, s: int, e: int) -> int
    decreases e - s,
{
    if e <= s {
        0
    } else {
        sum_objects(blocks, s, e - 1) + nb_of(blocks, e - 1)
    }
}

/// Largest insert time of `blocks[s..e]` (`i64::MIN` when the range is empty).
pub open spec fn max_insert(blocks: Seq<PartitionSourceBlock>, s: int, e: int) -> i64
    decreases e - s,
{
    if e <= s {
        i64::MIN
    } else {
        let m = max_insert(blocks, s, e - 1);
        let t = ins_of(blocks, e - 1);
        if t > m {
            t
        } else {
            m
        }
    }
}

/// Smallest insert time of `blocks[s..e]` (`i64::MAX` when the range is empty).
pub open spec fn min_insert(blocks: Seq<PartitionSourceBlock>, s: int, e: int) -> i64
    decreases e - s,
{
    if e <= s {
        i64::MAX
    } else {
        let m = min_insert(blocks, s + 1, e);
        let t = ins_of(blocks, s);
        if t < m {
            t
        } else {
            m
        }
    }
}

/// A cut before index `m` is insert-safe: no block before it was inserted after a block from it on.
pub open spec fn is_cut_safe(blocks: Seq<PartitionSourceBlock>, m: int) -> bool {
    max_insert(blocks, 0, m) <= min_insert(blocks, m, blocks.len() as int)
}

/// Adding block `i` to the window started at `s` would exceed `max_nb_objects`.
pub open spec fn is_full(blocks: Seq<PartitionSourceBlock>, max: i64, s: int, i: int) -> bool {
    sum_objects(blocks, s, i) + nb_of(blocks, i) > max
}

/// Index `i` forces the window started at `s` to close: it is full there, and an insert-safe cut
/// point exists in `(s, i]`.
pub open spec fn is_trigger(blocks: Seq<PartitionSourceBlock>, max: i64, s: int, i: int) -> bool {
    &&& s < i < blocks.len()
    &&& is_full(blocks, max, s, i)
    &&& exists|j: int| s < j <= i && #[trigger] is_cut_safe(blocks, j)
}

pub open spec fn is_first_trigger(
    blocks: Seq<PartitionSourceBlock>,
    max: i64,
    s: int,
    i: int,
) -> bool {
    &&& is_trigger(blocks, max, s, i)
    &&& forall|k: int| s < k < i ==> !#[trigger] is_trigger(blocks, max, s, k)
}

pub open spec fn is_latest_safe_before(blocks: Seq<PartitionSourceBlock>, s: int, i: int, j: int) -> bool {
    &&& s < j < i
    &&& is_cut_safe(blocks, j)
    &&& forall|k: int| j < k < i ==> !#[trigger] is_cut_safe(blocks, k)
}

/// Where the window started at `s` ends: at the first trigger index when it is insert-safe,
/// otherwise at the latest insert-safe index before it; at the end of the list when no index
/// triggers.
pub open spec fn cut_after(blocks: Seq<PartitionSourceBlock>, max: i64, s: int) -> int {
    if exists|i: int| is_first_trigger(blocks, max, s, i) {
        let i = choose|i: int| is_first_trigger(blocks, max, s, i);
        if is_cut_safe(blocks, i) {
            i
        } else {
            choose|j: int| is_latest_safe_before(blocks, s, i, j)
        }
    } else {
        blocks.len() as int
    }
}

/// The windows `[a, b)` emitted from index `s` on: consecutive windows cut by `cut_after`,
/// keeping those whose object count is not zero.
pub open spec fn emitted_windows(blocks: Seq<PartitionSourceBlock>, max: i64, s: int) -> Seq<(int, int)>
    decreases blocks.len() - s,
{
    if s < 0 || s >= blocks.len() {
        Seq::empty()
    } else {
        let c = cut_after(blocks, max, s);
        let e = if s < c <= blocks.len() {
            c
        } else {
            blocks.len() as int
        };
        let rest = emitted_windows(blocks, max, e);
        if sum_objects(blocks, s, e) != 0 {
            seq![(s, e)] + rest
        } else {
            rest
        }
    }
}

/// `part` holds exactly the blocks of window `w` and the hash of their object count.
pub open spec fn partition_of_window(
    part: &SourceDataBlocksInMemory,
    blocks: Seq<PartitionSourceBlock>,
    w: (int, int),
) -> bool {
    &&& part.blocks@ == blocks.subrange(w.0, w.1)
    &&& part.block_ids_hash@ == le_bytes(sum_objects(blocks, w.0, w.1) as i64)
}

/// `parts` are the partitions that cutting the (already ordered) `blocks` produces.
pub open spec fn partitions_of(
    parts: Seq<SourceDataBlocksInMemory>,
    blocks: Seq<PartitionSourceBlock>,
    max: i64,
) -> bool {
    let ws = emitted_windows(blocks, max, 0);
    &&& parts.len() == ws.len()
    &&& forall|k: int| 0 <= k < parts.len() ==> partition_of_window(&#[trigger] parts[k], blocks, ws[k])
}

// ---------------------------------------------------------------------------------------------
// Lemmas on the running sums and extrema.

pub proof fn lemma_sum_bound(blocks: Seq<PartitionSourceBlock>, s: int, e: int)
    requires
        s <= e <= blocks.len(),
        0 <= s,
    ensures
        -(e - s) * 0x8000_0000 <= sum_objects(blocks, s, e) <= (e - s) * 0x8000_0000,
    decreases e - s,
{
    if e > s {
        lemma_sum_bound(blocks, s, e - 1);
    }
}

pub proof fn lemma_max_insert_split(blocks: Seq<PartitionSourceBlock>, a: int, b: int, c: int)
    requires
        a <= b <= c,
    ensures
        max_insert(blocks, a, c) == (if max_insert(blocks, a, b) >= max_insert(blocks, b, c) {
            max_insert(blocks, a, b)
        } else {
            max_insert(blocks, b, c)
        }),
    decreases c - b,
{
    if c > b {
        lemma_max_insert_split(blocks, a, b, c - 1);
    }
}

pub proof fn lemma_min_insert_split(blocks: Seq<PartitionSourceBlock>, a: int, b: int, c: int)
    requires
        a <= b <= c,
    ensures
        min_insert(blocks, a, c) == (if min_insert(blocks, a, b) <= min_insert(blocks, b, c) {
            min_insert(blocks, a, b)
        } else {
            min_insert(blocks, b, c)
        }),
    decreases b - a,
{
    if b > a {
        lemma_min_insert_split(blocks, a + 1, b, c);
    }
}

pub proof fn lemma_max_insert_member(blocks: Seq<PartitionSourceBlock>, a: int, x: int, b: int)
    requires
        a <= x < b,
    ensures
        ins_of(blocks, x) <= max_insert(blocks, a, b),
    decreases b - a,
{
    if x < b - 1 {
        lemma_max_insert_member(blocks, a, x, b - 1);
    }
}

pub proof fn lemma_min_insert_member(blocks: Seq<PartitionSourceBlock>, a: int, x: int, b: int)
    requires
        a <= x < b,
    ensures
        min_insert(blocks, a, b) <= ins_of(blocks, x),
    decreases b - a,
{
    if x > a {
        lemma_min_insert_member(blocks, a + 1, x, b);
    }
}

/// Once the window start is insert-safe, the local test the loop runs (window max against suffix
/// min) decides global insert safety.
pub proof fn lemma_local_safety(blocks: Seq<PartitionSourceBlock>, start: int, i: int)
    requires
        0 <= start <= i <= blocks.len(),
        is_cut_safe(blocks, start),
    ensures
        (max_insert(blocks, start, i) <= min_insert(blocks, i, blocks.len() as int)) == is_cut_safe(
            blocks,
            i,
        ),
{
    let n = blocks.len() as int;
    lemma_max_insert_split(blocks, 0, start, i);
    lemma_min_insert_split(blocks, start, i, n);
}

// ---------------------------------------------------------------------------------------------
// Lemmas on the cut points.

pub proof fn lemma_first_trigger_exists(blocks: Seq<PartitionSourceBlock>, max: i64, s: int, i0: int)
    requires
        is_trigger(blocks, max, s, i0),
    ensures
        exists|i: int| is_first_trigger(blocks, max, s, i),
    decreases i0 - s,
{
    if exists|k: int| s < k < i0 && #[trigger] is_trigger(blocks, max, s, k) {
        let k = choose|k: int| s < k < i0 && #[trigger] is_trigger(blocks, max, s, k);
        lemma_first_trigger_exists(blocks, max, s, k);
    } else {
        assert(is_first_trigger(blocks, max, s, i0));
    }
}

pub proof fn lemma_first_trigger_unique(
    blocks: Seq<PartitionSourceBlock>,
    max: i64,
    s: int,
    i1: int,
    i2: int,
)
    requires
        is_first_trigger(blocks, max, s, i1),
        is_first_trigger(blocks, max, s, i2),
    ensures
        i1 == i2,
{
    if i1 < i2 {
        assert(!is_trigger(blocks, max, s, i1));
    } else if i2 < i1 {
        assert(!is_trigger(blocks, max, s, i2));
    }
}

pub proof fn lemma_latest_safe_exists(blocks: Seq<PartitionSourceBlock>, s: int, i: int, j0: int)
    requires
        s < j0 < i,
        is_cut_safe(blocks, j0),
    ensures
        exists|j: int| is_latest_safe_before(blocks, s, i, j),
    decreases i - j0,
{
    if exists|k: int| j0 < k < i && #[trigger] is_cut_safe(blocks, k) {
        let k = choose|k: int| j0 < k < i && #[trigger] is_cut_safe(blocks, k);
        lemma_latest_safe_exists(blocks, s, i, k);
    } else {
        assert(is_latest_safe_before(blocks, s, i, j0));
    }
}

pub proof fn lemma_latest_safe_unique(blocks: Seq<PartitionSourceBlock>, s: int, i: int, j1: int, j2: int)
    requires
        is_latest_safe_before(blocks, s, i, j1),
        is_latest_safe_before(blocks, s, i, j2),
    ensures
        j1 == j2,
{
    if j1 < j2 {
        assert(!is_cut_safe(blocks, j2));
    } else if j2 < j1 {
        assert(!is_cut_safe(blocks, j1));
    }
}

/// A window ends after it starts, within the list, at an insert-safe cut point.
pub proof fn lemma_cut_after_props(blocks: Seq<PartitionSourceBlock>, max: i64, s: int)
    requires
        0 <= s < blocks.len(),
    ensures
        s < cut_after(blocks, max, s) <= blocks.len(),
        is_cut_safe(blocks, cut_after(blocks, max, s)),
{
    let n = blocks.len() as int;
    if exists|i: int| is_first_trigger(blocks, max, s, i) {
        let i = choose|i: int| is_first_trigger(blocks, max, s, i);
        if !is_cut_safe(blocks, i) {
            let j0 = choose|j: int| s < j <= i && #[trigger] is_cut_safe(blocks, j);
            lemma_latest_safe_exists(blocks, s, i, j0);
        }
    } else {
        assert(max_insert(blocks, 0, n) <= min_insert(blocks, n, n));
    }
}

/// Cutting at `i` is what `cut_after` says when `i` is an insert-safe first trigger.
proof fn lemma_cut_at_safe_trigger(blocks: Seq<PartitionSourceBlock>, max: i64, s: int, i: int)
    requires
        is_first_trigger(blocks, max, s, i),
        is_cut_safe(blocks, i),
    ensures
        cut_after(blocks, max, s) == i,
{
    let i2 = choose|i2: int| is_first_trigger(blocks, max, s, i2);
    lemma_first_trigger_unique(blocks, max, s, i, i2);
}

/// Cutting back at `j` is what `cut_after` says when the first trigger `i` is unsafe and `j` is the
/// latest safe index before it.
proof fn lemma_cut_at_look_back(blocks: Seq<PartitionSourceBlock>, max: i64, s: int, i: int, j: int)
    requires
        is_first_trigger(blocks, max, s, i),
        !is_cut_safe(blocks, i),
        is_latest_safe_before(blocks, s, i, j),
    ensures
        cut_after(blocks, max, s) == j,
{
    let i2 = choose|i2: int| is_first_trigger(blocks, max, s, i2);
    lemma_first_trigger_unique(blocks, max, s, i, i2);
    let j2 = choose|j2: int| is_latest_safe_before(blocks, s, i, j2);
    lemma_latest_safe_unique(blocks, s, i, j, j2);
}

/// Unfolds `emitted_windows` at a window `[s, c)` whose end is the cut.
proof fn lemma_emitted_unfold(blocks: Seq<PartitionSourceBlock>, max: i64, s: int, c: int)
    requires
        0 <= s < blocks.len(),
        cut_after(blocks, max, s) == c,
        s < c <= blocks.len(),
    ensures
        emitted_windows(blocks, max, s) == (if sum_objects(blocks, s, c) != 0 {
            seq![(s, c)] + emitted_windows(blocks, max, c)
        } else {
            emitted_windows(blocks, max, c)
        }),
{
}

// ---------------------------------------------------------------------------------------------
// The law: emitted partitions never overlap in insert time.

/// Every window emitted from an insert-safe start lies after it, is cut at insert-safe points,
/// and comes after the windows before it.
pub proof fn lemma_emitted_windows_shape(blocks: Seq<PartitionSourceBlock>, max: i64, s: int)
    requires
        0 <= s <= blocks.len(),
    ensures
        forall|k: int|
            0 <= k < emitted_windows(blocks, max, s).len() ==> {
                let w = #[trigger] emitted_windows(blocks, max, s)[k];
                &&& s <= w.0 < w.1 <= blocks.len()
                &&& is_cut_safe(blocks, w.1)
            },
        forall|k1: int, k2: int|
            0 <= k1 < k2 < emitted_windows(blocks, max, s).len() ==> (#[trigger] emitted_windows(
                blocks,
                max,
                s,
            )[k1]).1 <= (#[trigger] emitted_windows(blocks, max, s)[k2]).0,
    decreases blocks.len() - s,
{
    if s < blocks.len() {
        lemma_cut_after_props(blocks, max, s);
        let c = cut_after(blocks, max, s);
        lemma_emitted_windows_shape(blocks, max, c);
        let rest = emitted_windows(blocks, max, c);
        let ws = emitted_windows(blocks, max, s);
        if sum_objects(blocks, s, c) != 0 {
            assert(ws == seq![(s, c)] + rest);
            assert forall|k1: int, k2: int| 0 <= k1 < k2 < ws.len() implies (
            #[trigger] ws[k1]).1 <= (#[trigger] ws[k2]).0 by {
                if k1 > 0 {
                    assert(ws[k1] == rest[k1 - 1]);
                    assert(ws[k2] == rest[k2 - 1]);
                } else {
                    assert(ws[k2] == rest[k2 - 1]);
                }
            }
            assert forall|k: int| 0 <= k < ws.len() implies {
                let w = #[trigger] ws[k];
                &&& s <= w.0 < w.1 <= blocks.len()
                &&& is_cut_safe(blocks, w.1)
            } by {
                if k > 0 {
                    assert(ws[k] == rest[k - 1]);
                }
            }
        }
    }
}

/// Insert-time non-overlap: every block of an earlier emitted partition was inserted no later
/// than every block of a later one.
pub proof fn lemma_emitted_insert_order(
    blocks: Seq<PartitionSourceBlock>,
    max: i64,
    k1: int,
    k2: int,
    x: int,
    y: int,
)
    requires
        0 <= k1 < k2 < emitted_windows(blocks, max, 0).len(),
        emitted_windows(blocks, max, 0)[k1].0 <= x < emitted_windows(blocks, max, 0)[k1].1,
        emitted_windows(blocks, max, 0)[k2].0 <= y < emitted_windows(blocks, max, 0)[k2].1,
    ensures
        ins_of(blocks, x) <= ins_of(blocks, y),
{
    lemma_emitted_windows_shape(blocks, max, 0);
    let ws = emitted_windows(blocks, max, 0);
    let w1 = ws[k1];
    let w2 = ws[k2];
    let n = blocks.len() as int;
    lemma_max_insert_member(blocks, w1.0, x, w1.1);
    lemma_max_insert_split(blocks, 0, w1.0, w1.1);
    lemma_min_insert_member(blocks, w2.0, y, n);
    lemma_min_insert_split(blocks, w1.1, w2.0, n);
}


// ---------------------------------------------------------------------------------------------
// Executable grouping.

/// Copies `blocks[start..end]`.
pub fn copy_block_range(blocks: &Vec<PartitionSourceBlock>, start: usize, end: usize) -> (r: Vec<
    PartitionSourceBlock,
>)
    requires
        start <= end <= blocks@.len(),
    ensures
        r@ == blocks@.subrange(start as int, end as int),
{
    let mut r: Vec<PartitionSourceBlock> = Vec::new();
    let mut k = start;
    while k < end
        invariant
            start <= k <= end <= blocks@.len(),
            r@ == blocks@.subrange(start as int, k as int),
        decreases end - k,
    {
        r.push(blocks[k]);
        assert(r@ =~= blocks@.subrange(start as int, k + 1));
        k = k + 1;
    }
    r
}

/// Emits one partition from `blocks[start..end]` if it holds any object.
fn emit_partition(
    out: &mut Vec<SourceDataBlocksInMemory>,
    blocks: &Vec<PartitionSourceBlock>,
    start: usize,
    end: usize,
    nb_objects: i64,
)
    requires
        start <= end <= blocks@.len(),
        nb_objects == sum_objects(blocks@, start as int, end as int),
    ensures
        nb_objects == 0 ==> final(out)@ == old(out)@,
        nb_objects != 0 ==> final(out)@.len() == old(out)@.len() + 1 && final(out)@.drop_last()
            == old(out)@ && partition_of_window(
            &final(out)@.last(),
            blocks@,
            (start as int, end as int),
        ),
{
    if nb_objects == 0 {
        return ;
    }
    let part = SourceDataBlocksInMemory {
        blocks: copy_block_range(blocks, start, end),
        block_ids_hash: object_count_to_hash(nb_objects),
    };
    out.push(part);
    assert(out@.drop_last() =~= old(out)@);
}

/// Cuts an already ordered block list into partitions of at most `max_nb_objects` objects
/// (whole blocks, so a soft limit), only at insert-safe cut points. The list holds fewer than 2^31
/// blocks (see `group_blocks_into_partitions`), so no running sum of `i32` object counts leaves
/// `i64`.
pub fn group_ordered_blocks(max_nb_objects: i64, blocks: &Vec<PartitionSourceBlock>) -> (out: Vec<
    SourceDataBlocksInMemory,
>)
    requires
        blocks@.len() < 0x8000_0000,
    ensures
        partitions_of(out@, blocks@, max_nb_objects),
{
    let n = blocks.len();
    let ghost bs = blocks@;
    let ghost max = max_nb_objects;
    if n == 0 {
        let out: Vec<SourceDataBlocksInMemory> = Vec::new();
        assert(emitted_windows(bs, max, 0) =~= Seq::<(int, int)>::empty());
        return out;
    }
    // suffix_min[i] = min insert time of blocks[i..n]; i64::MAX past the end.

    let mut suffix_min: Vec<i64> = Vec::new();
    let mut f: usize = 0;
    while f <= n
        invariant
            f <= n + 1,
            n == bs.len(),
            n < 0x8000_0000,
            suffix_min@.len() == f,
            forall|k: int| 0 <= k < f ==> #[trigger] suffix_min@[k] == i64::MAX,
        decreases n + 1 - f,
    {
        suffix_min.push(i64::MAX);
        f = f + 1;
    }
    let mut r: usize = n;
    while r > 0
        invariant
            r <= n,
            n == bs.len(),
            bs == blocks@,
            suffix_min@.len() == n + 1,
            forall|k: int| r <= k <= n ==> #[trigger] suffix_min@[k] == min_insert(bs, k, n as int),
        decreases r,
    {
        r = r - 1;
        let t = blocks[r].block.insert_time;
        let m = suffix_min[r + 1];
        let v = if t < m {
            t
        } else {
            m
        };
        suffix_min.set(r, v);
    }

    let mut out: Vec<SourceDataBlocksInMemory> = Vec::new();
    let ghost mut ow: Seq<(int, int)> = Seq::empty();
    let mut start: usize = 0;
    let mut nb_objects: i64 = 0;
    let mut prefix_max_insert: i64 = i64::MIN;
    let mut last_safe: Option<(usize, i64)> = None;
    let mut i: usize = 0;
    assert(is_cut_safe(bs, 0));
    while i < n
        invariant
            n == bs.len(),
            bs == blocks@,
            max == max_nb_objects,
            n < 0x8000_0000,
            suffix_min@.len() == n + 1,
            forall|k: int| 0 <= k <= n ==> #[trigger] suffix_min@[k] == min_insert(bs, k, n as int),
            start <= i <= n,
            start < n,
            is_cut_safe(bs, start as int),
            nb_objects == sum_objects(bs, start as int, i as int),
            prefix_max_insert == max_insert(bs, start as int, i as int),
            match last_safe {
                None => forall|k: int| start < k < i ==> !#[trigger] is_cut_safe(bs, k),
                Some((j, c)) => {
                    &&& start < j < i
                    &&& is_cut_safe(bs, j as int)
                    &&& c == sum_objects(bs, start as int, j as int)
                    &&& forall|k: int| j < k < i ==> !#[trigger] is_cut_safe(bs, k)
                },
            },
            forall|k: int| start < k < i ==> !#[trigger] is_trigger(bs, max, start as int, k),
            emitted_windows(bs, max, 0) == ow + emitted_windows(bs, max, start as int),
            out@.len() == ow.len(),
            forall|k: int| 0 <= k < out@.len() ==> partition_of_window(&#[trigger] out@[k], bs, ow[k]),
        decreases n - i, i - start,
    {
        proof {
            lemma_local_safety(bs, start as int, i as int);
            lemma_sum_bound(bs, start as int, i as int);
        }
        let safe_here = prefix_max_insert <= suffix_min[i];
        if safe_here && i > start {
            last_safe = Some((i, nb_objects));
        }
        let block_nb_objects = blocks[i].block.nb_objects as i64;
        let full = nb_objects + block_nb_objects > max_nb_objects && i > start;
        proof {
            assert(full == (i > start && is_full(bs, max, start as int, i as int)));
            if safe_here && i > start {
                assert(start < i <= i && is_cut_safe(bs, i as int));
            }
            if !safe_here && last_safe is None {
                assert forall|j: int| start < j <= i implies !#[trigger] is_cut_safe(bs, j) by {
                    if j == i {
                        assert(!is_cut_safe(bs, i as int));
                    }
                }
            }
        }
        if full {
            proof {
                assert(is_trigger(bs, max, start as int, i as int) ==> is_first_trigger(
                    bs,
                    max,
                    start as int,
                    i as int,
                ));
            }
            if safe_here {
                proof {
                    assert(is_cut_safe(bs, i as int));
                    assert(is_first_trigger(bs, max, start as int, i as int));
                    lemma_cut_at_safe_trigger(bs, max, start as int, i as int);
                    lemma_emitted_unfold(bs, max, start as int, i as int);
                }
                let ghost old_out = out@;
                emit_partition(&mut out, blocks, start, i, nb_objects);
                proof {
                    if nb_objects != 0 {
                        assert forall|k: int| 0 <= k < out@.len() implies partition_of_window(
                            &#[trigger] out@[k],
                            bs,
                            ow.push((start as int, i as int))[k],
                        ) by {
                            if k < old_out.len() {
                                assert(out@[k] == out@.drop_last()[k]);
                            }
                        }
                        assert(ow + emitted_windows(bs, max, start as int) =~= ow.push(
                            (start as int, i as int),
                        ) + emitted_windows(bs, max, i as int));
                        ow = ow.push((start as int, i as int));
                    }
                }
                start = i;
                nb_objects = 0;
                prefix_max_insert = i64::MIN;
                last_safe = None;
                continue ;
            } else if let Some((j, j_nb_objects)) = last_safe {
                proof {
                    assert(is_first_trigger(bs, max, start as int, i as int));
                    assert(is_latest_safe_before(bs, start as int, i as int, j as int));
                    lemma_cut_at_look_back(bs, max, start as int, i as int, j as int);
                    lemma_emitted_unfold(bs, max, start as int, j as int);
                }
                let ghost old_out = out@;
                emit_partition(&mut out, blocks, start, j, j_nb_objects);
                proof {
                    if j_nb_objects != 0 {
                        assert forall|k: int| 0 <= k < out@.len() implies partition_of_window(
                            &#[trigger] out@[k],
                            bs,
                            ow.push((start as int, j as int))[k],
                        ) by {
                            if k < old_out.len() {
                                assert(out@[k] == out@.drop_last()[k]);
                            }
                        }
                        assert(ow + emitted_windows(bs, max, start as int) =~= ow.push(
                            (start as int, j as int),
                        ) + emitted_windows(bs, max, j as int));
                        ow = ow.push((start as int, j as int));
                    }
                }
                start = j;
                nb_objects = 0;
                prefix_max_insert = i64::MIN;
                last_safe = None;
                let mut m = start;
                while m < i
                    invariant
                        start <= m <= i < n,
                        n == bs.len(),
                        bs == blocks@,
                        n < 0x8000_0000,
                        nb_objects == sum_objects(bs, start as int, m as int),
                        prefix_max_insert == max_insert(bs, start as int, m as int),
                    decreases i - m,
                {
                    proof {
                        lemma_sum_bound(bs, start as int, m as int);
                    }
                    nb_objects = nb_objects + blocks[m].block.nb_objects as i64;
                    let t = blocks[m].block.insert_time;
                    if t > prefix_max_insert {
                        prefix_max_insert = t;
                    }
                    m = m + 1;
                }
                continue ;
            }
        }
        proof {
            assert(!is_trigger(bs, max, start as int, i as int));
        }
        nb_objects = nb_objects + block_nb_objects;
        let t = blocks[i].block.insert_time;
        if t > prefix_max_insert {
            prefix_max_insert = t;
        }
        i = i + 1;
    }
    proof {
        assert(!exists|k: int| is_first_trigger(bs, max, start as int, k));
        assert(cut_after(bs, max, start as int) == n);
        lemma_emitted_unfold(bs, max, start as int, n as int);
        assert(emitted_windows(bs, max, n as int) =~= Seq::<(int, int)>::empty());
    }
    let ghost old_out = out@;
    emit_partition(&mut out, blocks, start, n, nb_objects);
    proof {
        if nb_objects != 0 {
            assert forall|k: int| 0 <= k < out@.len() implies partition_of_window(
                &#[trigger] out@[k],
                bs,
                ow.push((start as int, n as int))[k],
            ) by {
                if k < old_out.len() {
                    assert(out@[k] == out@.drop_last()[k]);
                }
            }
            assert(ow + emitted_windows(bs, max, start as int) =~= ow.push((start as int, n as int)));
            ow = ow.push((start as int, n as int));
        } else {
            assert(ow + emitted_windows(bs, max, start as int) =~= ow);
        }
    }
    out
}

} // verus!
