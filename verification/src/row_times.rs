use vstd::prelude::*;

verus! {

/// Whether `(lo, hi)` is the earliest and the latest of `times`.
pub open spec fn is_time_range_of(times: Seq<i64>, lo: i64, hi: i64) -> bool {
    &&& times.contains(lo)
    &&& times.contains(hi)
    &&& forall|i: int| 0 <= i < times.len() ==> lo <= #[trigger] times[i] <= hi
}

/// The earliest and the latest time of a set of rows, `None` when there is no row.
pub fn time_range(times: &Vec<i64>) -> (r: Option<(i64, i64)>)
    ensures
        r is None <==> times@.len() == 0,
        r matches Some((lo, hi)) ==> is_time_range_of(times@, lo, hi),
{
    if times.len() == 0 {
        return None;
    }
    let mut lo_i: usize = 0;
    let mut hi_i: usize = 0;
    let mut i: usize = 1;
    while i < times.len()
        invariant
            1 <= i <= times@.len(),
            lo_i < i,
            hi_i < i,
            forall|k: int| 0 <= k < i ==> times@[lo_i as int] <= #[trigger] times@[k] <= times@[hi_i as int],
        decreases times@.len() - i,
    {
        if times[i] < times[lo_i] {
            lo_i = i;
        }
        if times[i] > times[hi_i] {
            hi_i = i;
        }
        i = i + 1;
    }
    let lo = times[lo_i];
    let hi = times[hi_i];
    assert(times@[lo_i as int] == lo);
    assert(times@[hi_i as int] == hi);
    Some((lo, hi))
}

} // verus!
