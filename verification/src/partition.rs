use vstd::prelude::*;
use crate::bytes::bytes_copy;
use crate::error::LakehouseError;
use crate::time_range::TimeRange;
use crate::view::{ScanSortColumn, ViewMetadata, ViewMetadataView};

verus! {

/// Partition metadata: one row of `lakehouse_partitions`. Times are nanoseconds since the epoch.
pub struct Partition {
    /// Metadata about the view this partition belongs to.
    pub view_metadata: ViewMetadata,
    /// The insert time range for this partition.
    pub insert_time_range: TimeRange,
    /// The event time range for this partition. None for empty partitions.
    pub event_time_range: Option<TimeRange>,
    /// The last time this partition was updated.
    pub updated: i64,
    /// The path to the Parquet file for this partition. None for empty partitions.
    pub file_path: Option<String>,
    /// The size of the Parquet file in bytes. 0 for empty partitions.
    pub file_size: i64,
    /// A hash of the source data that generated this partition.
    pub source_data_hash: Vec<u8>,
    /// The number of rows in this partition. 0 for empty partitions.
    pub num_rows: i64,
    /// The sort guarantee this partition's rows carry, if any.
    pub sort_order: Option<Vec<String>>,
    /// The true maximum value of the view's declared leading sort column, when recorded.
    pub max_sort_key_time: Option<i64>,
}

pub struct PartitionView {
    pub view_metadata: ViewMetadataView,
    pub insert_time_range: TimeRange,
    pub event_time_range: Option<TimeRange>,
    pub updated: i64,
    pub file_path: Option<Seq<char>>,
    pub file_size: i64,
    pub source_data_hash: Seq<u8>,
    pub num_rows: i64,
    pub sort_order: Option<Seq<Seq<char>>>,
    pub max_sort_key_time: Option<i64>,
}

pub open spec fn opt_string_view(s: Option<String>) -> Option<Seq<char>> {
    match s {
        Some(s) => Some(s@),
        None => None,
    }
}

pub open spec fn strings_view(v: Seq<String>) -> Seq<Seq<char>> {
    v.map_values(|s: String| s@)
}

pub open spec fn opt_strings_view(v: Option<Vec<String>>) -> Option<Seq<Seq<char>>> {
    match v {
        Some(v) => Some(strings_view(v@)),
        None => None,
    }
}

impl View for Partition {
    type V = PartitionView;

    open spec fn view(&self) -> PartitionView {
        PartitionView {
            view_metadata: self.view_metadata@,
            insert_time_range: self.insert_time_range,
            event_time_range: self.event_time_range,
            updated: self.updated,
            file_path: opt_string_view(self.file_path),
            file_size: self.file_size,
            source_data_hash: self.source_data_hash@,
            num_rows: self.num_rows,
            sort_order: opt_strings_view(self.sort_order),
            max_sort_key_time: self.max_sort_key_time,
        }
    }
}

/// Whether `s` is one of `v`'s strings.
pub fn strings_contain(v: &Vec<String>, s: &str) -> (r: bool)
    ensures
        r == strings_view(v@).contains(s@),
{
    let ghost sv = strings_view(v@);
    let mut i: usize = 0;
    while i < v.len()
        invariant
            i <= v@.len(),
            sv == strings_view(v@),
            forall|k: int| 0 <= k < i ==> sv[k] != s@,
        decreases v@.len() - i,
    {
        if crate::view::str_eq(v[i].as_str(), s) {
            assert(sv[i as int] == s@);
            return true;
        }
        i = i + 1;
    }
    assert(!sv.contains(s@)) by {
        if sv.contains(s@) {
            let k = choose|k: int| 0 <= k < sv.len() && sv[k] == s@;
            assert(sv[k] != s@);
        }
    }
    false
}

/// A copy of a list of strings.
pub fn copy_strings(v: &Vec<String>) -> (r: Vec<String>)
    ensures
        strings_view(r@) == strings_view(v@),
{
    let mut r: Vec<String> = Vec::new();
    let mut i: usize = 0;
    while i < v.len()
        invariant
            i <= v@.len(),
            strings_view(r@) == strings_view(v@.subrange(0, i as int)),
        decreases v@.len() - i,
    {
        let c = v[i].clone();
        assert(c@ == v@[i as int]@);
        let ghost before = r@;
        r.push(c);
        assert(strings_view(r@) =~= strings_view(before).push(c@));
        assert(strings_view(v@.subrange(0, i + 1)) =~= strings_view(v@.subrange(0, i as int)).push(v@[i as int]@));
        i = i + 1;
    }
    assert(v@.subrange(0, i as int) =~= v@);
    r
}

/// The values of a list of partitions.
pub open spec fn partitions_view(ps: Seq<Partition>) -> Seq<PartitionView> {
    ps.map_values(|p: Partition| p@)
}

impl Partition {
    pub fn copy(&self) -> (r: Partition)
        ensures
            r@ == self@,
    {
        let file_path = match &self.file_path {
            Some(p) => Some(p.clone()),
            None => None,
        };
        let sort_order = match &self.sort_order {
            Some(v) => Some(copy_strings(v)),
            None => None,
        };
        Partition {
            view_metadata: self.view_metadata.copy(),
            insert_time_range: self.insert_time_range,
            event_time_range: self.event_time_range,
            updated: self.updated,
            file_path,
            file_size: self.file_size,
            source_data_hash: bytes_copy(self.source_data_hash.as_slice()),
            num_rows: self.num_rows,
            sort_order,
            max_sort_key_time: self.max_sort_key_time,
        }
    }

    /// Returns true if this partition has no data (num_rows = 0).
    pub fn is_empty(&self) -> (r: bool)
        ensures
            r == (self.num_rows == 0),
    {
        self.num_rows == 0
    }

    /// Returns the min event time, if this partition has data.
    pub fn min_event_time(&self) -> (r: Option<i64>)
        ensures
            r == (match self.event_time_range {
                Some(range) => Some(range.begin),
                None => None,
            }),
    {
        match self.event_time_range {
            Some(range) => Some(range.begin),
            None => None,
        }
    }

    /// Returns the max event time, if this partition has data.
    pub fn max_event_time(&self) -> (r: Option<i64>)
        ensures
            r == (match self.event_time_range {
                Some(range) => Some(range.end),
                None => None,
            }),
    {
        match self.event_time_range {
            Some(range) => Some(range.end),
            None => None,
        }
    }

    /// Returns the recorded true maximum leading-sort-column value, if any.
    pub fn max_sort_key_time(&self) -> (r: Option<i64>)
        ensures
            r == self.max_sort_key_time,
    {
        self.max_sort_key_time
    }

    /// Returns the beginning of the insert time range.
    pub fn begin_insert_time(&self) -> (r: i64)
        ensures
            r == self.insert_time_range.begin,
    {
        self.insert_time_range.begin
    }

    /// Returns the end of the insert time range.
    pub fn end_insert_time(&self) -> (r: i64)
        ensures
            r == self.insert_time_range.end,
    {
        self.insert_time_range.end
    }

    /// True when this partition's recorded `sort_order` certifies `columns` (all ascending) as an
    /// ordering its rows satisfy: they must name a prefix of the recorded order. Empty partitions
    /// certify vacuously; an empty `columns` never certifies a non-empty partition.
    pub fn certifies_sort_order(&self, columns: &Vec<ScanSortColumn>) -> (r: bool)
        ensures
            r == spec_certifies_sort_order(self@, columns@),
    {
        if self.is_empty() {
            return true;
        }
        if columns.len() == 0 {
            return false;
        }
        let recorded = match &self.sort_order {
            Some(v) => v,
            None => {
                return false;
            },
        };
        if columns.len() > recorded.len() {
            return false;
        }
        let mut i: usize = 0;
        while i < columns.len()
            invariant
                i <= columns@.len() <= recorded@.len(),
                self.sort_order == Some(*recorded),
                self.num_rows != 0,
                columns@.len() > 0,
                forall|k: int| 0 <= k < i ==> !(#[trigger] columns@[k]).descending && columns@[k].column@ == recorded@[k]@,
            decreases columns@.len() - i,
        {
            let declared = &columns[i];
            proof {
                assert(strings_view(recorded@)[i as int] == recorded@[i as int]@);
            }
            if declared.descending {
                assert(columns@[i as int].descending);
                return false;
            }
            if declared.column != recorded[i] {
                assert(columns@[i as int].column@ != strings_view(recorded@)[i as int]);
                return false;
            }
            i = i + 1;
        }
        assert forall|k: int| 0 <= k < columns@.len() implies !(#[trigger] columns@[k]).descending && columns@[k].column@ == strings_view(recorded@)[k] by {
            assert(strings_view(recorded@)[k] == recorded@[k]@);
        }
        true
    }

    /// Validates partition invariants: a non-empty partition carries an event time range and a
    /// file path, an empty one carries neither, the row count is not negative, and a partition
    /// without an event time range carries no sort-key bound.
    pub fn validate(&self) -> (r: Result<(), LakehouseError>)
        ensures
            r == spec_validate(self@),
    {
        if self.num_rows > 0 {
            if self.event_time_range.is_none() {
                return Err(LakehouseError::NonEmptyWithoutEventTimeRange);
            }
            if self.file_path.is_none() {
                return Err(LakehouseError::NonEmptyWithoutFilePath);
            }
        } else if self.num_rows == 0 {
            if self.event_time_range.is_some() {
                return Err(LakehouseError::EmptyWithEventTimeRange);
            }
            if self.file_path.is_some() {
                return Err(LakehouseError::EmptyWithFilePath);
            }
        } else {
            return Err(LakehouseError::NegativeRowCount);
        }
        if self.event_time_range.is_none() && self.max_sort_key_time.is_some() {
            return Err(LakehouseError::SortKeyWithoutEventTimeRange);
        }
        Ok(())
    }
}

pub open spec fn spec_certifies_sort_order(p: PartitionView, columns: Seq<ScanSortColumn>) -> bool {
    if p.num_rows == 0 {
        true
    } else if columns.len() == 0 {
        false
    } else {
        match p.sort_order {
            None => false,
            Some(recorded) => columns.len() <= recorded.len() && forall|k: int|
                0 <= k < columns.len() ==> !(#[trigger] columns[k]).descending && columns[k].column@ == recorded[k],
        }
    }
}

pub open spec fn spec_validate(p: PartitionView) -> Result<(), LakehouseError> {
    if p.num_rows > 0 && p.event_time_range is None {
        Err(LakehouseError::NonEmptyWithoutEventTimeRange)
    } else if p.num_rows > 0 && p.file_path is None {
        Err(LakehouseError::NonEmptyWithoutFilePath)
    } else if p.num_rows == 0 && p.event_time_range is Some {
        Err(LakehouseError::EmptyWithEventTimeRange)
    } else if p.num_rows == 0 && p.file_path is Some {
        Err(LakehouseError::EmptyWithFilePath)
    } else if p.num_rows < 0 {
        Err(LakehouseError::NegativeRowCount)
    } else if p.event_time_range is None && p.max_sort_key_time is Some {
        Err(LakehouseError::SortKeyWithoutEventTimeRange)
    } else {
        Ok(())
    }
}

/// Law: a partition that validates is consistent -- it has data exactly when it has both an event
/// time range and a file, and it records a sort-key bound only when it has an event time range.
pub proof fn validated_partition_consistent(p: PartitionView)
    requires
        spec_validate(p) is Ok,
    ensures
        p.num_rows >= 0,
        (p.num_rows > 0) == (p.event_time_range is Some),
        (p.num_rows > 0) == (p.file_path is Some),
        p.max_sort_key_time is Some ==> p.event_time_range is Some,
{
}


/// A non-empty partition certifies a declared sort order exactly when the declaration is not empty,
/// every declared column is ascending, and the declared column names, in order, are the first
/// `columns.len()` names of the partition's recorded sort order: a column named at position `k`
/// must be the recorded column at position `k`, for every position, not only the first.
pub proof fn certified_order_is_recorded_prefix(p: PartitionView, columns: Seq<ScanSortColumn>)
    requires
        p.num_rows != 0,
    ensures
        spec_certifies_sort_order(p, columns) <==> {
            &&& columns.len() > 0
            &&& p.sort_order is Some
            &&& columns.len() <= p.sort_order->Some_0.len()
            &&& columns.map_values(|c: ScanSortColumn| c.column@) == p.sort_order->Some_0.take(columns.len() as int)
            &&& forall|k: int| 0 <= k < columns.len() ==> !(#[trigger] columns[k]).descending
        },
{
    if p.sort_order is Some && columns.len() <= p.sort_order->Some_0.len() {
        let rec = p.sort_order->Some_0;
        let names = columns.map_values(|c: ScanSortColumn| c.column@);
        if spec_certifies_sort_order(p, columns) && columns.len() > 0 {
            assert(names =~= rec.take(columns.len() as int));
        }
        if names == rec.take(columns.len() as int) {
            assert forall|k: int| 0 <= k < columns.len() implies (#[trigger] columns[k]).column@ == rec[k] by {
                assert(names[k] == rec.take(columns.len() as int)[k]);
            }
        }
    }
}

} // verus!
