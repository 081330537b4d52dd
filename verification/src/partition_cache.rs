use vstd::prelude::*;
use crate::bytes::bytes_eq;
use crate::error::LakehouseError;
use crate::partition::{partitions_view, Partition, PartitionView};
use crate::time_range::TimeRange;
use crate::view::str_eq;

verus! {

/// Which partitions a selection from the cache keeps.
pub enum PartitionFilter<'a> {
    /// Partitions of one view instance and file schema overlapping an insert range.
    ViewOverlapping { view_set_name: &'a str, view_instance_id: &'a str, file_schema_hash: &'a [u8], range: TimeRange },
    /// Partitions of any view overlapping an insert range.
    Overlapping { range: TimeRange },
    /// Partitions of one view instance lying inside an insert range.
    ViewInside { view_set_name: &'a str, view_instance_id: &'a str, range: TimeRange },
    /// Partitions of one view instance and file schema, whatever their range.
    ViewSchema { view_set_name: &'a str, view_instance_id: &'a str, file_schema_hash: &'a [u8] },
}

/// The partition's insert range overlaps `range` (both half-open).
pub open spec fn overlaps_insert_range(p: PartitionView, range: TimeRange) -> bool {
    p.insert_time_range.begin < range.end && p.insert_time_range.end > range.begin
}

/// The partition's insert range lies inside `range`.
pub open spec fn inside_insert_range(p: PartitionView, range: TimeRange) -> bool {
    p.insert_time_range.begin >= range.begin && p.insert_time_range.end <= range.end
}

pub open spec fn of_view(p: PartitionView, view_set_name: Seq<char>, view_instance_id: Seq<char>) -> bool {
    p.view_metadata.view_set_name == view_set_name && p.view_metadata.view_instance_id == view_instance_id
}

/// What a `PartitionFilter` selects, as values.
pub enum Selection {
    ViewOverlapping { view_set_name: Seq<char>, view_instance_id: Seq<char>, file_schema_hash: Seq<u8>, range: TimeRange },
    Overlapping { range: TimeRange },
    ViewInside { view_set_name: Seq<char>, view_instance_id: Seq<char>, range: TimeRange },
    ViewSchema { view_set_name: Seq<char>, view_instance_id: Seq<char>, file_schema_hash: Seq<u8> },
}

impl<'a> PartitionFilter<'a> {
    pub open spec fn selection(self) -> Selection {
        match self {
            PartitionFilter::ViewOverlapping { view_set_name, view_instance_id, file_schema_hash, range } =>
                Selection::ViewOverlapping { view_set_name: view_set_name@, view_instance_id: view_instance_id@, file_schema_hash: file_schema_hash@, range },
            PartitionFilter::Overlapping { range } => Selection::Overlapping { range },
            PartitionFilter::ViewInside { view_set_name, view_instance_id, range } =>
                Selection::ViewInside { view_set_name: view_set_name@, view_instance_id: view_instance_id@, range },
            PartitionFilter::ViewSchema { view_set_name, view_instance_id, file_schema_hash } =>
                Selection::ViewSchema { view_set_name: view_set_name@, view_instance_id: view_instance_id@, file_schema_hash: file_schema_hash@ },
        }
    }
}

pub open spec fn keeps(f: Selection, p: PartitionView) -> bool {
    match f {
        Selection::ViewOverlapping { view_set_name, view_instance_id, file_schema_hash, range } =>
            of_view(p, view_set_name, view_instance_id) && p.view_metadata.file_schema_hash == file_schema_hash
                && overlaps_insert_range(p, range),
        Selection::Overlapping { range } => overlaps_insert_range(p, range),
        Selection::ViewInside { view_set_name, view_instance_id, range } =>
            of_view(p, view_set_name, view_instance_id) && inside_insert_range(p, range),
        Selection::ViewSchema { view_set_name, view_instance_id, file_schema_hash } =>
            of_view(p, view_set_name, view_instance_id) && p.view_metadata.file_schema_hash == file_schema_hash,
    }
}

/// The partitions of `ps` that `f` keeps, in order.
pub open spec fn selected(f: Selection, ps: Seq<PartitionView>) -> Seq<PartitionView> {
    ps.filter(|p: PartitionView| keeps(f, p))
}

fn keeps_exec(f: &PartitionFilter, p: &Partition) -> (r: bool)
    ensures
        r == keeps(f.selection(), p@),
{
    match f {
        PartitionFilter::ViewOverlapping { view_set_name, view_instance_id, file_schema_hash, range } =>
            str_eq(p.view_metadata.view_set_name.as_str(), view_set_name) && str_eq(p.view_metadata.view_instance_id.as_str(), view_instance_id)
                && bytes_eq(p.view_metadata.file_schema_hash.as_slice(), file_schema_hash)
                && p.insert_time_range.begin < range.end && p.insert_time_range.end > range.begin,
        PartitionFilter::Overlapping { range } => p.insert_time_range.begin < range.end && p.insert_time_range.end > range.begin,
        PartitionFilter::ViewInside { view_set_name, view_instance_id, range } =>
            str_eq(p.view_metadata.view_set_name.as_str(), view_set_name) && str_eq(p.view_metadata.view_instance_id.as_str(), view_instance_id)
                && p.insert_time_range.begin >= range.begin && p.insert_time_range.end <= range.end,
        PartitionFilter::ViewSchema { view_set_name, view_instance_id, file_schema_hash } =>
            str_eq(p.view_metadata.view_set_name.as_str(), view_set_name) && str_eq(p.view_metadata.view_instance_id.as_str(), view_instance_id)
                && bytes_eq(p.view_metadata.file_schema_hash.as_slice(), file_schema_hash),
    }
}

/// Copies of the partitions of `ps` that `f` keeps, in order.
pub fn select_partitions(ps: &Vec<Partition>, f: &PartitionFilter) -> (r: Vec<Partition>)
    ensures
        partitions_view(r@) == selected(f.selection(), partitions_view(ps@)),
{
    let ghost all = partitions_view(ps@);
    let ghost pred = |p: PartitionView| keeps(f.selection(), p);
    let mut out: Vec<Partition> = Vec::new();
    let mut i: usize = 0;
    while i < ps.len()
        invariant
            i <= ps@.len(),
            all == partitions_view(ps@),
            pred == (|p: PartitionView| keeps(f.selection(), p)),
            partitions_view(out@) == all.subrange(0, i as int).filter(pred),
        decreases ps@.len() - i,
    {
        let keep = keeps_exec(f, &ps[i]);
        proof {
            assert(all.subrange(0, i + 1) =~= all.subrange(0, i as int).push(all[i as int]));
            all.subrange(0, i as int).lemma_filter_push(all[i as int], pred);
        }
        if keep {
            let c = ps[i].copy();
            let ghost before = out@;
            out.push(c);
            assert(partitions_view(out@) =~= partitions_view(before).push(all[i as int]));
        }
        i = i + 1;
    }
    assert(all.subrange(0, i as int) =~= all);
    out
}

/// An in-memory copy of the partitions of a range of insert time, queried by insert time.
pub struct PartitionCache {
    pub partitions: Vec<Partition>,
    pub insert_range: TimeRange,
}

impl PartitionCache {
    /// A cache of `partitions`, fetched for `insert_range`.
    pub fn new(partitions: Vec<Partition>, insert_range: TimeRange) -> (r: PartitionCache)
        ensures
            r.partitions@ == partitions@,
            r.insert_range == insert_range,
    {
        PartitionCache { partitions, insert_range }
    }

    pub fn len(&self) -> (r: usize)
        ensures
            r == self.partitions@.len(),
    {
        self.partitions.len()
    }

    pub fn is_empty(&self) -> (r: bool)
        ensures
            r == (self.partitions@.len() == 0),
    {
        self.partitions.len() == 0
    }

    /// The partitions of one view instance and file schema overlapping `insert_range`.
    pub fn filter(&self, view_set_name: &str, view_instance_id: &str, file_schema_hash: &[u8], insert_range: TimeRange) -> (r: PartitionCache)
        ensures
            partitions_view(r.partitions@) == selected(Selection::ViewOverlapping { view_set_name: view_set_name@, view_instance_id: view_instance_id@, file_schema_hash: file_schema_hash@, range: insert_range }, partitions_view(self.partitions@)),
            r.insert_range == insert_range,
    {
        let f = PartitionFilter::ViewOverlapping { view_set_name, view_instance_id, file_schema_hash, range: insert_range };
        PartitionCache { partitions: select_partitions(&self.partitions, &f), insert_range }
    }

    /// The partitions of all views overlapping `insert_range`.
    pub fn filter_insert_range(&self, insert_range: TimeRange) -> (r: PartitionCache)
        ensures
            partitions_view(r.partitions@) == selected(Selection::Overlapping { range: insert_range }, partitions_view(self.partitions@)),
            r.insert_range == insert_range,
    {
        let f = PartitionFilter::Overlapping { range: insert_range };
        PartitionCache { partitions: select_partitions(&self.partitions, &f), insert_range }
    }

    /// The partitions of one view instance that fit completely in `insert_range`.
    pub fn filter_inside_range(&self, view_set_name: &str, view_instance_id: &str, insert_range: TimeRange) -> (r: PartitionCache)
        ensures
            partitions_view(r.partitions@) == selected(Selection::ViewInside { view_set_name: view_set_name@, view_instance_id: view_instance_id@, range: insert_range }, partitions_view(self.partitions@)),
            r.insert_range == insert_range,
    {
        let f = PartitionFilter::ViewInside { view_set_name, view_instance_id, range: insert_range };
        PartitionCache { partitions: select_partitions(&self.partitions, &f), insert_range }
    }

    /// The partitions of one view instance and file schema; with a query range (tested against
    /// insert time, which must lie within the range the cache was built for), only those
    /// overlapping it.
    pub fn fetch(&self, view_set_name: &str, view_instance_id: &str, query_range: Option<TimeRange>, file_schema_hash: Vec<u8>) -> (r: Result<Vec<Partition>, LakehouseError>)
        ensures
            match query_range {
                Some(range) => if range.begin < self.insert_range.begin || range.end > self.insert_range.end {
                    r == Err::<Vec<Partition>, LakehouseError>(LakehouseError::RangeOutsideCache)
                } else {
                    r is Ok && partitions_view(r->Ok_0@) == selected(Selection::ViewOverlapping { view_set_name: view_set_name@, view_instance_id: view_instance_id@, file_schema_hash: file_schema_hash@, range }, partitions_view(self.partitions@))
                },
                None => r is Ok && partitions_view(r->Ok_0@) == selected(Selection::ViewSchema { view_set_name: view_set_name@, view_instance_id: view_instance_id@, file_schema_hash: file_schema_hash@ }, partitions_view(self.partitions@)),
            },
    {
        match query_range {
            Some(range) => {
                if range.begin < self.insert_range.begin || range.end > self.insert_range.end {
                    return Err(LakehouseError::RangeOutsideCache);
                }
                let f = PartitionFilter::ViewOverlapping { view_set_name, view_instance_id, file_schema_hash: file_schema_hash.as_slice(), range };
                Ok(select_partitions(&self.partitions, &f))
            },
            None => {
                let f = PartitionFilter::ViewSchema { view_set_name, view_instance_id, file_schema_hash: file_schema_hash.as_slice() };
                Ok(select_partitions(&self.partitions, &f))
            },
        }
    }
}


/// The partitions with the view set name, view instance id and file schema hash asked for, whose
/// insert range overlaps `range` (half-open on both sides).
pub open spec fn wanted_overlapping(p: PartitionView, name: Seq<char>, instance: Seq<char>, hash: Seq<u8>, range: TimeRange) -> bool {
    &&& p.view_metadata.view_set_name == name
    &&& p.view_metadata.view_instance_id == instance
    &&& p.view_metadata.file_schema_hash == hash
    &&& p.insert_time_range.begin < range.end
    &&& p.insert_time_range.end > range.begin
}

/// Selecting the partitions of one view instance keeps exactly that instance's partitions: every
/// partition the view-overlapping selection returns has the requested view set name, view instance
/// id and file schema hash and overlaps the insert range, and every partition of the input that
/// has them is returned. The same holds of the selection by schema alone (whatever the range), of
/// the selection of partitions lying inside a range, and of the selection of every view's
/// partitions overlapping a range.
pub proof fn view_selections_keep_only_the_instance(
    name: Seq<char>,
    instance: Seq<char>,
    hash: Seq<u8>,
    range: TimeRange,
    ps: Seq<PartitionView>,
)
    ensures
        ({
            let s = selected(Selection::ViewOverlapping { view_set_name: name, view_instance_id: instance, file_schema_hash: hash, range }, ps);
            &&& forall|i: int| 0 <= i < s.len() ==> wanted_overlapping(#[trigger] s[i], name, instance, hash, range)
            &&& forall|j: int| 0 <= j < ps.len() && wanted_overlapping(#[trigger] ps[j], name, instance, hash, range) ==> s.contains(ps[j])
        }),
        ({
            let s = selected(Selection::ViewSchema { view_set_name: name, view_instance_id: instance, file_schema_hash: hash }, ps);
            &&& forall|i: int| 0 <= i < s.len() ==> {
                &&& (#[trigger] s[i]).view_metadata.view_set_name == name
                &&& s[i].view_metadata.view_instance_id == instance
                &&& s[i].view_metadata.file_schema_hash == hash
            }
            &&& forall|j: int| 0 <= j < ps.len() && (#[trigger] ps[j]).view_metadata.view_set_name == name
                && ps[j].view_metadata.view_instance_id == instance && ps[j].view_metadata.file_schema_hash == hash
                ==> s.contains(ps[j])
        }),
        ({
            let s = selected(Selection::ViewInside { view_set_name: name, view_instance_id: instance, range }, ps);
            &&& forall|i: int| 0 <= i < s.len() ==> {
                &&& (#[trigger] s[i]).view_metadata.view_set_name == name
                &&& s[i].view_metadata.view_instance_id == instance
                &&& s[i].insert_time_range.begin >= range.begin
                &&& s[i].insert_time_range.end <= range.end
            }
            &&& forall|j: int| 0 <= j < ps.len() && (#[trigger] ps[j]).view_metadata.view_set_name == name
                && ps[j].view_metadata.view_instance_id == instance && ps[j].insert_time_range.begin >= range.begin
                && ps[j].insert_time_range.end <= range.end
                ==> s.contains(ps[j])
        }),
        ({
            let s = selected(Selection::Overlapping { range }, ps);
            &&& forall|i: int| 0 <= i < s.len() ==> (#[trigger] s[i]).insert_time_range.begin < range.end
                && s[i].insert_time_range.end > range.begin
            &&& forall|j: int| 0 <= j < ps.len() && (#[trigger] ps[j]).insert_time_range.begin < range.end
                && ps[j].insert_time_range.end > range.begin ==> s.contains(ps[j])
        }),
{
    let fa = Selection::Overlapping { range };
    let pa = |p: PartitionView| keeps(fa, p);
    assert forall|i: int| 0 <= i < ps.filter(pa).len() implies keeps(fa, #[trigger] ps.filter(pa)[i]) by {
        ps.lemma_filter_pred(pa, i);
    }
    assert forall|j: int| 0 <= j < ps.len() && keeps(fa, #[trigger] ps[j]) implies ps.filter(pa).contains(ps[j]) by {
        ps.lemma_filter_contains(pa, j);
    }
    let fo = Selection::ViewOverlapping { view_set_name: name, view_instance_id: instance, file_schema_hash: hash, range };
    let fs = Selection::ViewSchema { view_set_name: name, view_instance_id: instance, file_schema_hash: hash };
    let fi = Selection::ViewInside { view_set_name: name, view_instance_id: instance, range };
    let po = |p: PartitionView| keeps(fo, p);
    let pss = |p: PartitionView| keeps(fs, p);
    let pi = |p: PartitionView| keeps(fi, p);
    assert forall|i: int| 0 <= i < ps.filter(po).len() implies wanted_overlapping(#[trigger] ps.filter(po)[i], name, instance, hash, range) by {
        ps.lemma_filter_pred(po, i);
    }
    assert forall|j: int| 0 <= j < ps.len() && wanted_overlapping(#[trigger] ps[j], name, instance, hash, range) implies ps.filter(po).contains(ps[j]) by {
        ps.lemma_filter_contains(po, j);
    }
    assert forall|i: int| 0 <= i < ps.filter(pss).len() implies keeps(fs, #[trigger] ps.filter(pss)[i]) by {
        ps.lemma_filter_pred(pss, i);
    }
    assert forall|j: int| 0 <= j < ps.len() && keeps(fs, #[trigger] ps[j]) implies ps.filter(pss).contains(ps[j]) by {
        ps.lemma_filter_contains(pss, j);
    }
    assert forall|i: int| 0 <= i < ps.filter(pi).len() implies keeps(fi, #[trigger] ps.filter(pi)[i]) by {
        ps.lemma_filter_pred(pi, i);
    }
    assert forall|j: int| 0 <= j < ps.len() && keeps(fi, #[trigger] ps[j]) implies ps.filter(pi).contains(ps[j]) by {
        ps.lemma_filter_contains(pi, j);
    }
}

} // verus!
