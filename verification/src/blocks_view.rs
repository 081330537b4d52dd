use vstd::prelude::*;
use crate::batch_update::PartitionCreationStrategy;
use crate::partition::{Partition, PartitionView, partitions_view, strings_view};
use crate::view::str_eq;

verus! {

/// Version of the `blocks` file schema.
pub const BLOCKS_SCHEMA_VERSION: u8 = 5;

/// The file schema hash of the `blocks` view: `[5]`.
pub fn blocks_file_schema_hash() -> (r: Vec<u8>)
    ensures
        r@ == seq![BLOCKS_SCHEMA_VERSION],
{
    let mut v: Vec<u8> = Vec::new();
    v.push(BLOCKS_SCHEMA_VERSION);
    v
}

/// The only sort guarantee the `blocks` view records or declares: `insert_time`.
pub fn insert_time_sort_order() -> (r: Vec<String>)
    ensures
        strings_view(r@) == seq!["insert_time"@],
{
    let mut v: Vec<String> = Vec::new();
    v.push(String::from_str("insert_time"));
    assert(strings_view(v@) =~= seq!["insert_time"@]);
    v
}

/// Whether a partition either holds no row or records exactly the `insert_time` sort order.
pub open spec fn ordered_or_empty(p: PartitionView) -> bool {
    p.num_rows == 0 || p.sort_order == Some(seq!["insert_time"@])
}

/// Whether every partition to merge is ordered by insert time or empty.
pub open spec fn spec_all_ordered_or_empty(ps: Seq<PartitionView>) -> bool {
    forall|k: int| 0 <= k < ps.len() ==> ordered_or_empty(#[trigger] ps[k])
}

fn is_insert_time_order(order: &Option<Vec<String>>) -> (r: bool)
    ensures
        r == (match order {
            Some(v) => strings_view(v@) == seq!["insert_time"@],
            None => false,
        }),
{
    match order {
        Some(v) => {
            if v.len() != 1 {
                assert(strings_view(v@).len() != 1);
                return false;
            }
            let r = str_eq(v[0].as_str(), "insert_time");
            proof {
                if r {
                    assert(strings_view(v@) =~= seq!["insert_time"@]);
                } else {
                    assert(strings_view(v@)[0] != "insert_time"@);
                }
            }
            r
        },
        None => false,
    }
}

/// Whether every partition to merge is ordered by insert time or empty (only then may a merge
/// declare and record the `insert_time` guarantee).
pub fn all_inputs_ordered_or_empty(partitions_to_merge: &Vec<Partition>) -> (r: bool)
    ensures
        r == spec_all_ordered_or_empty(partitions_view(partitions_to_merge@)),
{
    let ghost pv = partitions_view(partitions_to_merge@);
    let mut i: usize = 0;
    while i < partitions_to_merge.len()
        invariant
            i <= partitions_to_merge@.len(),
            pv == partitions_view(partitions_to_merge@),
            forall|k: int| 0 <= k < i ==> ordered_or_empty(#[trigger] pv[k]),
        decreases partitions_to_merge@.len() - i,
    {
        let p = &partitions_to_merge[i];
        if !p.is_empty() && !is_insert_time_order(&p.sort_order) {
            assert(!ordered_or_empty(pv[i as int]));
            return false;
        }
        i = i + 1;
    }
    true
}

/// Whether some partition to merge holds rows.
pub open spec fn spec_any_non_empty(ps: Seq<PartitionView>) -> bool {
    exists|k: int| 0 <= k < ps.len() && (#[trigger] ps[k]).num_rows != 0
}

/// Which query merges `blocks` partitions: the ordered (concatenating) one only when some input
/// holds rows and every input is ordered by insert time or empty; the plain one otherwise (an
/// all-empty source would defeat the ordered plan's shape check).
pub fn use_ordered_merger(partitions_to_merge: &Vec<Partition>) -> (r: bool)
    ensures
        r == (spec_any_non_empty(partitions_view(partitions_to_merge@))
            && spec_all_ordered_or_empty(partitions_view(partitions_to_merge@))),
{
    let ghost pv = partitions_view(partitions_to_merge@);
    let mut any_non_empty = false;
    let mut i: usize = 0;
    while i < partitions_to_merge.len()
        invariant
            i <= partitions_to_merge@.len(),
            pv == partitions_view(partitions_to_merge@),
            any_non_empty == exists|k: int| 0 <= k < i && (#[trigger] pv[k]).num_rows != 0,
        decreases partitions_to_merge@.len() - i,
    {
        if !partitions_to_merge[i].is_empty() {
            assert(pv[i as int].num_rows != 0);
            any_non_empty = true;
        }
        i = i + 1;
    }
    any_non_empty && all_inputs_ordered_or_empty(partitions_to_merge)
}

/// The sort order a merge of `blocks` partitions records: `insert_time` when every input is
/// ordered or empty, none otherwise.
pub fn get_merged_partition_sort_order(partitions_to_merge: &Vec<Partition>) -> (r: Option<Vec<String>>)
    ensures
        spec_all_ordered_or_empty(partitions_view(partitions_to_merge@)) ==> (r matches Some(v) && strings_view(v@) == seq!["insert_time"@]),
        !spec_all_ordered_or_empty(partitions_view(partitions_to_merge@)) ==> r is None,
{
    if all_inputs_ordered_or_empty(partitions_to_merge) {
        Some(insert_time_sort_order())
    } else {
        None
    }
}

/// The longest time span of a `blocks` partition: one hour when created from the source (or when
/// aborting), one day when merging existing partitions.
pub fn blocks_max_partition_time_delta_nanos(strategy: &PartitionCreationStrategy) -> (r: i64)
    ensures
        r == (match strategy {
            PartitionCreationStrategy::MergeExisting(_) => 86_400_000_000_000i64,
            _ => 3_600_000_000_000i64,
        }),
{
    match strategy {
        PartitionCreationStrategy::Abort => 3_600_000_000_000,
        PartitionCreationStrategy::CreateFromSource => 3_600_000_000_000,
        PartitionCreationStrategy::MergeExisting(_) => 86_400_000_000_000,
    }
}

/// The `blocks` view materializes in update group 1000.
pub fn blocks_update_group() -> (r: Option<i32>)
    ensures
        r == Some(1000i32),
{
    Some(1000)
}

} // verus!
