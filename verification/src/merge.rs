use vstd::prelude::*;
use crate::bytes::bytes_eq;
use crate::error::LakehouseError;
use crate::partition::{partitions_view, Partition, PartitionView};
use crate::partition_cache::{selected, PartitionCache, Selection};
use crate::partition_source_data::{hash_to_object_count, le_bytes, le_value, object_count_to_hash};
use crate::time_range::TimeRange;

verus! {

/// The 32-bit xxHash of `input` with `seed` (`xxhash_rust::xxh32::xxh32`).
pub uninterp spec fn xxh32_of(input: Seq<u8>, seed: u32) -> u32;

/// `xxhash_rust::xxh32::xxh32`: the XXH32 hash of the bytes with the seed. It is a pure function
/// of its two arguments, which is all the contract claims (through `xxh32_of`).
#[verifier::external_body]
fn xxh32_hash(input: &[u8], seed: u32) -> (r: u32)
    ensures
        r == xxh32_of(input@, seed),
{
    xxhash_rust::xxh32::xxh32(input, seed)
}

/// The merged source hash and total size after folding in partition `p`, or the error when `p`
/// was written with another file schema. Hashes that hold an object count are added; older
/// hashes are mixed in with xxHash, seeded by the running hash.
pub open spec fn stats_step(latest: Seq<u8>, acc: (i64, i64), p: PartitionView) -> Result<(i64, i64), LakehouseError> {
    let hash = if p.source_data_hash.len() == 8 {
        acc.1.wrapping_add(le_value(p.source_data_hash))
    } else {
        xxh32_of(p.source_data_hash, acc.1 as u32) as i64
    };
    if p.view_metadata.file_schema_hash != latest {
        Err(LakehouseError::IncompatibleFileSchema)
    } else {
        Ok((acc.0.wrapping_add(p.file_size), hash))
    }
}

/// `(sum of file sizes, merged source hash)` over `ps[..k]`.
pub open spec fn stats_upto(latest: Seq<u8>, ps: Seq<PartitionView>, k: int) -> Result<(i64, i64), LakehouseError>
    decreases k,
{
    if k <= 0 {
        Ok((0, 0))
    } else {
        match stats_upto(latest, ps, k - 1) {
            Err(e) => Err(e),
            Ok(acc) => stats_step(latest, acc, ps[k - 1]),
        }
    }
}

proof fn lemma_stats_err(latest: Seq<u8>, ps: Seq<PartitionView>, k: int, n: int, e: LakehouseError)
    requires
        0 <= k <= n,
        stats_upto(latest, ps, k) == Err::<(i64, i64), LakehouseError>(e),
    ensures
        stats_upto(latest, ps, n) == Err::<(i64, i64), LakehouseError>(e),
    decreases n - k,
{
    if k < n {
        lemma_stats_err(latest, ps, k + 1, n, e);
    }
}

/// Total file size and merged source hash of the partitions to merge (sums wrap on overflow);
/// fails when one of them was written with another file schema than `latest_file_schema_hash`.
pub fn partition_set_stats(latest_file_schema_hash: &[u8], filtered_partitions: &Vec<Partition>) -> (r: Result<(i64, i64), LakehouseError>)
    ensures
        r == stats_upto(latest_file_schema_hash@, partitions_view(filtered_partitions@), filtered_partitions@.len() as int),
{
    let ghost pv = partitions_view(filtered_partitions@);
    let mut sum_size: i64 = 0;
    let mut source_hash: i64 = 0;
    let mut i: usize = 0;
    while i < filtered_partitions.len()
        invariant
            i <= pv.len(),
            pv == partitions_view(filtered_partitions@),
            stats_upto(latest_file_schema_hash@, pv, i as int) == Ok::<(i64, i64), LakehouseError>((sum_size, source_hash)),
        decreases pv.len() - i,
    {
        let p = &filtered_partitions[i];
        assert(p@ == pv[i as int]);
        source_hash = if p.source_data_hash.len() == 8 {
            let c = match hash_to_object_count(p.source_data_hash.as_slice()) {
                Ok(c) => c,
                Err(e) => {
                    return Err(e);
                },
            };
            source_hash.wrapping_add(c)
        } else {
            xxh32_hash(p.source_data_hash.as_slice(), source_hash as u32) as i64
        };
        sum_size = sum_size.wrapping_add(p.file_size);
        if !bytes_eq(p.view_metadata.file_schema_hash.as_slice(), latest_file_schema_hash) {
            proof {
                lemma_stats_err(latest_file_schema_hash@, pv, i + 1, pv.len() as int, LakehouseError::IncompatibleFileSchema);
            }
            return Err(LakehouseError::IncompatibleFileSchema);
        }
        i = i + 1;
    }
    Ok((sum_size, source_hash))
}

/// The partitions of `r` and `s` sharing the begin insert time `t`, in order.
pub open spec fn with_begin(s: Seq<PartitionView>, t: i64) -> Seq<PartitionView> {
    s.filter(|p: PartitionView| p.insert_time_range.begin == t)
}

/// `r` is `s` stably sorted by begin insert time.
pub open spec fn is_stable_sort_by_begin(r: Seq<PartitionView>, s: Seq<PartitionView>) -> bool {
    &&& r.len() == s.len()
    &&& forall|i: int, j: int| 0 <= i < j < r.len() ==> (#[trigger] r[i]).insert_time_range.begin <= (#[trigger] r[j]).insert_time_range.begin
    &&& forall|t: i64| #[trigger] with_begin(r, t) == with_begin(s, t)
}

/// The key merged partitions are ordered by.
pub fn partition_begin_key(p: &Partition) -> (r: i64)
    ensures
        r == p.insert_time_range.begin,
{
    p.begin_insert_time()
}

/// `std`'s `slice::sort_by_key`, keyed by `partition_begin_key`: its documentation states that it
/// sorts ascending by the key and preserves the initial order of equal elements.
#[verifier::external_body]
fn sort_partitions_by_begin(ps: &mut Vec<Partition>)
    ensures
        is_stable_sort_by_begin(partitions_view(final(ps)@), partitions_view(old(ps)@)),
{
    ps.sort_by_key(|p| partition_begin_key(p));
}

/// What a merge of existing partitions writes: the partitions, ordered by begin insert time, their
/// total size, and the merged source hash (and its bytes).
pub struct MergePlan {
    pub partitions: Vec<Partition>,
    pub sum_size: i64,
    pub source_hash: i64,
    pub source_data_hash: Vec<u8>,
}

/// Prepares merging the partitions of a view instance that fit completely in `insert_range`
/// (partitions only intersecting it would duplicate rows): `None` when fewer than two are found
/// (nothing to merge); an error when one was written with another file schema.
pub fn prepare_merge(
    partitions_to_merge: &PartitionCache,
    latest_file_schema_hash: &[u8],
    view_set_name: &str,
    view_instance_id: &str,
    insert_range: TimeRange,
) -> (r: Result<Option<MergePlan>, LakehouseError>)
    ensures
        ({
            let inside = selected(
                Selection::ViewInside { view_set_name: view_set_name@, view_instance_id: view_instance_id@, range: insert_range },
                partitions_view(partitions_to_merge.partitions@),
            );
            if inside.len() < 2 {
                r == Ok::<Option<MergePlan>, LakehouseError>(None)
            } else {
                match stats_upto(latest_file_schema_hash@, inside, inside.len() as int) {
                    Err(e) => r == Err::<Option<MergePlan>, LakehouseError>(e),
                    Ok((sum_size, source_hash)) => r is Ok && r->Ok_0 is Some && {
                        let plan = r->Ok_0->Some_0;
                        &&& plan.sum_size == sum_size
                        &&& plan.source_hash == source_hash
                        &&& plan.source_data_hash@ == le_bytes(source_hash)
                        &&& is_stable_sort_by_begin(partitions_view(plan.partitions@), inside)
                    },
                }
            }
        }),
{
    let filtered = partitions_to_merge.filter_inside_range(view_set_name, view_instance_id, insert_range);
    let mut filtered_partitions = filtered.partitions;
    if filtered_partitions.len() < 2 {
        return Ok(None);
    }
    let (sum_size, source_hash) = partition_set_stats(latest_file_schema_hash, &filtered_partitions)?;
    sort_partitions_by_begin(&mut filtered_partitions);
    Ok(Some(MergePlan {
        partitions: filtered_partitions,
        sum_size,
        source_hash,
        source_data_hash: object_count_to_hash(source_hash),
    }))
}

} // verus!
