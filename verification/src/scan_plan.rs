use vstd::prelude::*;
use crate::error::LakehouseError;
use crate::partition::{Partition, PartitionView, partitions_view, spec_certifies_sort_order};
use crate::view::ScanSortColumn;

verus! {

/// Which time range bounds a partition under a declared ordering.
#[derive(Clone, Copy, PartialEq, Eq, Structural)]
pub enum OrderingBounds {
    /// `[min event time, max sort key time (or max event time)]`.
    EventTime,
    /// The partition's insert time range.
    InsertTime,
}

/// The range of the leading sort column that a partition covers, when known.
pub open spec fn spec_partition_bounds(p: PartitionView, b: OrderingBounds) -> Option<(i64, i64)> {
    match b {
        OrderingBounds::EventTime => match p.event_time_range {
            Some(r) => Some((r.begin, match p.max_sort_key_time {
                Some(m) => m,
                None => r.end,
            })),
            None => None,
        },
        OrderingBounds::InsertTime => Some((p.insert_time_range.begin, p.insert_time_range.end)),
    }
}

/// The range of the leading sort column that a partition covers (see `spec_partition_bounds`).
pub fn partition_bounds(p: &Partition, b: OrderingBounds) -> (r: Option<(i64, i64)>)
    ensures
        r == spec_partition_bounds(p@, b),
{
    match b {
        OrderingBounds::EventTime => match (p.min_event_time(), p.max_sort_key_time()) {
            (Some(begin), Some(m)) => Some((begin, m)),
            (Some(begin), None) => match p.max_event_time() {
                Some(end) => Some((begin, end)),
                None => None,
            },
            (None, _) => None,
        },
        OrderingBounds::InsertTime => Some((p.begin_insert_time(), p.end_insert_time())),
    }
}

/// The key a concatenated scan orders its partitions by: the beginning of their bounds (a
/// partition without bounds first), then their file path (none first).
pub open spec fn spec_scan_key(p: PartitionView, b: OrderingBounds) -> (Option<i64>, Option<Seq<char>>) {
    (match spec_partition_bounds(p, b) {
        Some((begin, _)) => Some(begin),
        None => None,
    }, p.file_path)
}

pub fn scan_key(p: &Partition, b: OrderingBounds) -> (r: (Option<i64>, Option<String>))
    ensures
        r.0 == spec_scan_key(p@, b).0,
        (match r.1 { Some(s) => Some(s@), None => None::<Seq<char>> }) == spec_scan_key(p@, b).1,
{
    let begin = match partition_bounds(p, b) {
        Some((begin, _)) => Some(begin),
        None => None,
    };
    let path = match &p.file_path {
        Some(f) => Some(f.clone()),
        None => None,
    };
    (begin, path)
}

/// Whether `a` is a strict prefix-or-smaller text than `b` in lexicographic order of characters
/// (the order of `String`, whose byte order follows character order in UTF-8).
pub open spec fn chars_lt(a: Seq<char>, b: Seq<char>) -> bool {
    exists|i: int| 0 <= i <= a.len() && i <= b.len() && a.subrange(0, i) == b.subrange(0, i)
        && ((i == a.len() && i < b.len()) || (i < a.len() && i < b.len() && (a[i] as u32) < (b[i] as u32)))
}

/// `Option`'s order: `None` first.
pub open spec fn opt_i64_lt(a: Option<i64>, b: Option<i64>) -> bool {
    match (a, b) {
        (None, Some(_)) => true,
        (Some(x), Some(y)) => x < y,
        _ => false,
    }
}

pub open spec fn opt_chars_le(a: Option<Seq<char>>, b: Option<Seq<char>>) -> bool {
    match (a, b) {
        (None, _) => true,
        (Some(_), None) => false,
        (Some(x), Some(y)) => x == y || chars_lt(x, y),
    }
}

/// The order of scan keys: by bounds' beginning, then by file path.
pub open spec fn scan_key_le(a: (Option<i64>, Option<Seq<char>>), b: (Option<i64>, Option<Seq<char>>)) -> bool {
    opt_i64_lt(a.0, b.0) || (a.0 == b.0 && opt_chars_le(a.1, b.1))
}

/// The partitions of `s` with scan key `k`, in their order in `s`.
pub open spec fn with_scan_key(s: Seq<PartitionView>, b: OrderingBounds, k: (Option<i64>, Option<Seq<char>>)) -> Seq<PartitionView> {
    s.filter(|p: PartitionView| spec_scan_key(p, b) == k)
}

/// `r` is `s` stably sorted by scan key.
pub open spec fn is_stable_sort_by_scan_key(r: Seq<PartitionView>, s: Seq<PartitionView>, b: OrderingBounds) -> bool {
    &&& r.len() == s.len()
    &&& forall|i: int, j: int| 0 <= i < j < r.len() ==> scan_key_le(spec_scan_key(#[trigger] r[i], b), spec_scan_key(#[trigger] r[j], b))
    &&& forall|k: (Option<i64>, Option<Seq<char>>)| #[trigger] with_scan_key(r, b, k) == with_scan_key(s, b, k)
}

/// `std`'s `slice::sort_by_key`, keyed by `scan_key`. Its documentation states that it sorts
/// ascending by the key and preserves the initial order of equal elements; tuples and `Option`
/// order lexicographically with `None` first, and `String` orders by its bytes, which in UTF-8
/// follows the order of characters.
#[verifier::external_body]
fn sort_by_scan_key(ps: &mut Vec<Partition>, b: OrderingBounds)
    ensures
        is_stable_sort_by_scan_key(partitions_view(final(ps)@), partitions_view(old(ps)@), b),
{
    ps.sort_by_key(|p| scan_key(p, b));
}

/// Whether two adjacent partitions overlap: both bounded and the first ending after the second
/// begins.
pub open spec fn adjacent_overlap(prev: PartitionView, next: PartitionView, b: OrderingBounds) -> bool {
    match (spec_partition_bounds(prev, b), spec_partition_bounds(next, b)) {
        (Some((_, prev_max)), Some((next_min, _))) => prev_max > next_min,
        _ => false,
    }
}

/// Whether no two adjacent partitions of `s` overlap.
pub open spec fn non_overlapping(s: Seq<PartitionView>, b: OrderingBounds) -> bool {
    forall|i: int| 0 <= i < s.len() - 1 ==> !adjacent_overlap(#[trigger] s[i], s[i + 1], b)
}

/// Orders the partitions of a concatenated scan by scan key and checks that adjacent ones do not
/// overlap, since a concatenated scan's declared order would otherwise be a lie.
pub fn sort_and_check_non_overlapping(partitions: Vec<Partition>, b: OrderingBounds) -> (r: Result<Vec<Partition>, LakehouseError>)
    ensures
        match r {
            Ok(v) => is_stable_sort_by_scan_key(partitions_view(v@), partitions_view(partitions@), b)
                && non_overlapping(partitions_view(v@), b),
            Err(e) => e == LakehouseError::OrderingViolated && exists|v: Seq<PartitionView>|
                is_stable_sort_by_scan_key(v, partitions_view(partitions@), b) && !non_overlapping(v, b),
        },
{
    let ghost input = partitions_view(partitions@);
    let mut ps = partitions;
    sort_by_scan_key(&mut ps, b);
    let ghost sorted = partitions_view(ps@);
    let n = ps.len();
    if n > 0 {
        let mut i: usize = 0;
        while i < n - 1
            invariant
                n == ps@.len(),
                n > 0,
                sorted == partitions_view(ps@),
                input == partitions_view(partitions@),
                is_stable_sort_by_scan_key(sorted, input, b),
                i <= n - 1,
                forall|k: int| 0 <= k < i ==> !adjacent_overlap(#[trigger] sorted[k], sorted[k + 1], b),
            decreases n - 1 - i,
        {
            let prev = partition_bounds(&ps[i], b);
            let next = partition_bounds(&ps[i + 1], b);
            match (prev, next) {
                (Some((_, prev_max)), Some((next_min, _))) => {
                    if prev_max > next_min {
                        assert(adjacent_overlap(sorted[i as int], sorted[i + 1], b));
                        assert(!non_overlapping(sorted, b));
                        return Err(LakehouseError::OrderingViolated);
                    }
                },
                _ => {},
            }
            i = i + 1;
        }
    }
    Ok(ps)
}

/// How a partition scan's declared output ordering is realized.
pub enum ScanOrdering {
    /// No declared ordering.
    Unordered,
    /// All files form one sequential group concatenating in globally sorted order; requires
    /// non-overlapping bounds.
    Concatenated { columns: Vec<ScanSortColumn>, bounds: OrderingBounds },
    /// Each file is sorted by `columns`; one group per file, for a downstream merge.
    PerFile { columns: Vec<ScanSortColumn> },
}

impl ScanOrdering {
    /// Whether this ordering declares a concatenated scan's global order.
    pub fn declares_concatenated_ordering(&self) -> (r: bool)
        ensures
            r == (*self is Concatenated),
    {
        match self {
            ScanOrdering::Concatenated { .. } => true,
            _ => false,
        }
    }
}

/// A file of a scan: its path and size, and the bounds of its leading sort column when attached
/// as statistics.
pub struct ScanFile {
    pub path: String,
    pub size: i64,
    pub leading_bounds: Option<(i64, i64)>,
}

/// The file layout of a partition scan.
pub enum ScanLayout {
    /// No file to read: the scan yields no row.
    Empty,
    /// One sequential group of files, declaring the scan's ordering or not.
    OneGroup { files: Vec<ScanFile>, declares_ordering: bool },
    /// One group per file, each declaring the ordering.
    PerFile { files: Vec<ScanFile> },
}

/// The partitions that hold rows, in order.
pub open spec fn non_empty_views(s: Seq<PartitionView>) -> Seq<PartitionView>
    decreases s.len(),
{
    if s.len() == 0 {
        Seq::empty()
    } else if s.last().num_rows != 0 {
        non_empty_views(s.drop_last()).push(s.last())
    } else {
        non_empty_views(s.drop_last())
    }
}

/// Whether every partition of `s` certifies `columns`.
pub open spec fn all_certify(s: Seq<PartitionView>, columns: Seq<ScanSortColumn>) -> bool {
    forall|k: int| 0 <= k < s.len() ==> spec_certifies_sort_order(#[trigger] s[k], columns)
}

/// Whether every partition of `s` has a file path.
pub open spec fn all_have_paths(s: Seq<PartitionView>) -> bool {
    forall|k: int| 0 <= k < s.len() ==> (#[trigger] s[k]).file_path is Some
}

/// Whether `files` are the files of the partitions `s`, in order, with statistics from `bounds`
/// when given.
pub open spec fn files_of(files: Seq<ScanFile>, s: Seq<PartitionView>, bounds: Option<OrderingBounds>) -> bool {
    &&& files.len() == s.len()
    &&& forall|k: int| 0 <= k < s.len() ==> {
        &&& s[k].file_path is Some
        &&& (#[trigger] files[k]).path@ == s[k].file_path->Some_0
        &&& files[k].size == s[k].file_size
        &&& files[k].leading_bounds == match bounds {
            Some(b) => spec_partition_bounds(s[k], b),
            None => None,
        }
    }
}

/// Whether `r` is the single-group layout of the files of `s` (or the empty layout, or the
/// missing-file-path error).
pub open spec fn one_group_is(r: Result<ScanLayout, LakehouseError>, s: Seq<PartitionView>, bounds: Option<OrderingBounds>, declares: bool) -> bool {
    if !all_have_paths(s) {
        r == Err::<ScanLayout, LakehouseError>(LakehouseError::NonEmptyWithoutFilePath)
    } else if s.len() == 0 {
        r is Ok && r->Ok_0 is Empty
    } else {
        r is Ok && (r->Ok_0 matches ScanLayout::OneGroup { files, declares_ordering }
            && files_of(files@, s, bounds) && declares_ordering == declares)
    }
}

fn collect_files(s: &Vec<Partition>, bounds: Option<OrderingBounds>) -> (r: Result<Vec<ScanFile>, LakehouseError>)
    ensures
        match r {
            Ok(files) => all_have_paths(partitions_view(s@)) && files_of(files@, partitions_view(s@), bounds),
            Err(e) => e == LakehouseError::NonEmptyWithoutFilePath && !all_have_paths(partitions_view(s@)),
        },
{
    let ghost sv = partitions_view(s@);
    let mut files: Vec<ScanFile> = Vec::new();
    let mut i: usize = 0;
    while i < s.len()
        invariant
            i <= s@.len(),
            sv == partitions_view(s@),
            files_of(files@, sv.take(i as int), bounds),
        decreases s@.len() - i,
    {
        let p = &s[i];
        let path = match &p.file_path {
            Some(f) => f.clone(),
            None => {
                assert(sv[i as int].file_path is None);
                return Err(LakehouseError::NonEmptyWithoutFilePath);
            },
        };
        let leading_bounds = match bounds {
            Some(b) => partition_bounds(p, b),
            None => None,
        };
        let ghost before = files@;
        files.push(ScanFile { path, size: p.file_size, leading_bounds });
        proof {
            assert(sv.take(i + 1) =~= sv.take(i as int).push(sv[i as int]));
            assert forall|k: int| 0 <= k < i + 1 implies {
                &&& sv.take(i + 1)[k].file_path is Some
                &&& (#[trigger] files@[k]).path@ == sv.take(i + 1)[k].file_path->Some_0
                &&& files@[k].size == sv.take(i + 1)[k].file_size
                &&& files@[k].leading_bounds == match bounds {
                    Some(b) => spec_partition_bounds(sv.take(i + 1)[k], b),
                    None => None,
                }
            } by {
                if k < i {
                    assert(files@[k] == before[k]);
                }
            }
        }
        i = i + 1;
    }
    assert(sv.take(s@.len() as int) =~= sv);
    assert forall|k: int| 0 <= k < sv.len() implies (#[trigger] sv[k]).file_path is Some by {
        let f = files@[k];
    }
    Ok(files)
}

fn non_empty_copies(ps: &Vec<Partition>) -> (r: Vec<Partition>)
    ensures
        partitions_view(r@) == non_empty_views(partitions_view(ps@)),
{
    let ghost pv = partitions_view(ps@);
    let mut out: Vec<Partition> = Vec::new();
    let mut i: usize = 0;
    while i < ps.len()
        invariant
            i <= ps@.len(),
            pv == partitions_view(ps@),
            partitions_view(out@) == non_empty_views(pv.take(i as int)),
        decreases ps@.len() - i,
    {
        proof {
            assert(pv.take(i + 1).drop_last() =~= pv.take(i as int));
        }
        if !ps[i].is_empty() {
            let c = ps[i].copy();
            let ghost before = out@;
            out.push(c);
            assert(partitions_view(out@) =~= partitions_view(before).push(pv[i as int]));
        }
        i = i + 1;
    }
    assert(pv.take(ps@.len() as int) =~= pv);
    out
}

fn all_certify_exec(ps: &Vec<Partition>, columns: &Vec<ScanSortColumn>) -> (r: bool)
    ensures
        r == all_certify(partitions_view(ps@), columns@),
{
    let mut i: usize = 0;
    while i < ps.len()
        invariant
            i <= ps@.len(),
            forall|k: int| 0 <= k < i ==> spec_certifies_sort_order(#[trigger] partitions_view(ps@)[k], columns@),
        decreases ps@.len() - i,
    {
        if !ps[i].certifies_sort_order(columns) {
            assert(!spec_certifies_sort_order(partitions_view(ps@)[i as int], columns@));
            return false;
        }
        i = i + 1;
    }
    true
}

/// The file layout of a scan over `partitions` (empty ones skipped) under `ordering`: a per-file
/// ordering that some non-empty partition does not certify degrades to no ordering; a
/// concatenated ordering orders the partitions by scan key and refuses overlapping ones, then
/// attaches each file's leading-column bounds as statistics when columns are declared; a
/// non-empty partition without a file path is an error.
pub fn plan_partition_scan(partitions: &Vec<Partition>, ordering: &ScanOrdering) -> (r: Result<ScanLayout, LakehouseError>)
    ensures
        ({
            let ne = non_empty_views(partitions_view(partitions@));
            match *ordering {
                ScanOrdering::Unordered => one_group_is(r, ne, None, false),
                ScanOrdering::PerFile { columns } => if !all_certify(ne, columns@) {
                    one_group_is(r, ne, None, false)
                } else if !all_have_paths(ne) {
                    r == Err::<ScanLayout, LakehouseError>(LakehouseError::NonEmptyWithoutFilePath)
                } else if ne.len() == 0 {
                    r is Ok && r->Ok_0 is Empty
                } else {
                    r is Ok && (r->Ok_0 matches ScanLayout::PerFile { files } && files_of(files@, ne, None))
                },
                ScanOrdering::Concatenated { columns, bounds } => match r {
                    Err(LakehouseError::OrderingViolated) => exists|v: Seq<PartitionView>|
                        is_stable_sort_by_scan_key(v, ne, bounds) && !non_overlapping(v, bounds),
                    _ => exists|v: Seq<PartitionView>| is_stable_sort_by_scan_key(v, ne, bounds) && non_overlapping(v, bounds)
                        && one_group_is(r, v, if columns@.len() > 0 { Some(bounds) } else { None }, columns@.len() > 0),
                },
            }
        }),
{
    let ne = non_empty_copies(partitions);
    match ordering {
        ScanOrdering::Unordered => {
            let files = match collect_files(&ne, None) {
                Ok(f) => f,
                Err(e) => return Err(e),
            };
            if files.len() == 0 {
                Ok(ScanLayout::Empty)
            } else {
                Ok(ScanLayout::OneGroup { files, declares_ordering: false })
            }
        },
        ScanOrdering::PerFile { columns } => {
            let certified = all_certify_exec(&ne, columns);
            let files = match collect_files(&ne, None) {
                Ok(f) => f,
                Err(e) => return Err(e),
            };
            if files.len() == 0 {
                Ok(ScanLayout::Empty)
            } else if certified {
                Ok(ScanLayout::PerFile { files })
            } else {
                Ok(ScanLayout::OneGroup { files, declares_ordering: false })
            }
        },
        ScanOrdering::Concatenated { columns, bounds } => {
            let ghost nev = partitions_view(ne@);
            let sorted = match sort_and_check_non_overlapping(ne, *bounds) {
                Ok(v) => v,
                Err(e) => return Err(e),
            };
            let declared = columns.len() > 0;
            let stats = if declared { Some(*bounds) } else { None };
            let files = match collect_files(&sorted, stats) {
                Ok(f) => f,
                Err(e) => {
                    assert(is_stable_sort_by_scan_key(partitions_view(sorted@), nev, *bounds));
                    return Err(e);
                },
            };
            assert(is_stable_sort_by_scan_key(partitions_view(sorted@), nev, *bounds));
            if files.len() == 0 {
                Ok(ScanLayout::Empty)
            } else {
                Ok(ScanLayout::OneGroup { files, declares_ordering: declared })
            }
        },
    }
}

} // verus!
