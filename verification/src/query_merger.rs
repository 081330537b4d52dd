use vstd::prelude::*;
use crate::error::LakehouseError;
use crate::scan_plan::ScanOrdering;
use crate::partition::strings_view;
use crate::view::{ScanSortColumn, chars_of, str_eq};

verus! {

/// Whether `pat` occurs in `s`.
pub open spec fn spec_contains(s: Seq<char>, pat: Seq<char>) -> bool {
    exists|i: int| 0 <= i && i + pat.len() <= s.len() && #[trigger] s.subrange(i, i + pat.len()) == pat
}

/// Whether `pat` occurs in `s` (see `spec_contains`).
fn str_contains(s: &str, pat: &str) -> (r: bool)
    ensures
        r == spec_contains(s@, pat@),
{
    let text = chars_of(s);
    let p = chars_of(pat);
    let n = text.len();
    let m = p.len();
    if m > n {
        return false;
    }
    let mut i: usize = 0;
    while i <= n - m
        invariant
            text@ == s@,
            p@ == pat@,
            n == s@.len(),
            m == pat@.len(),
            m <= n,
            i <= n - m + 1,
            forall|q: int| 0 <= q < i ==> #[trigger] s@.subrange(q, q + m) != pat@,
        decreases n - m + 1 - i,
    {
        let mut j: usize = 0;
        while j < m && text[i + j] == p[j]
            invariant
                i <= n - m,
                text@ == s@,
                p@ == pat@,
                n == s@.len(),
                m == pat@.len(),
                j <= m,
                forall|k: int| 0 <= k < j ==> s@[i + k] == pat@[k],
            decreases m - j,
        {
            j = j + 1;
        }
        if j == m {
            assert(s@.subrange(i as int, i + m) =~= pat@);
            return true;
        }
        assert(s@.subrange(i as int, i + m)[j as int] != pat@[j as int]);
        i = i + 1;
    }
    assert forall|q: int| 0 <= q && q + pat@.len() <= s@.len() implies #[trigger] s@.subrange(q, q + pat@.len()) != pat@ by {
        assert(q < i);
    }
    false
}

/// How a merge query runs.
pub enum MergeStrategy {
    /// k ordered readers collapsed by a sort-preserving merge, sorted by these columns.
    SortedMerge(Vec<ScanSortColumn>),
    /// One sequential reader; `declared` when the concatenation's order is declared.
    Concatenate { declared: bool },
}

/// A merger of partitions through a SQL query over them (`query`); `H` holds the handles the
/// query runs with (view factory, session configuration, file schema).
pub struct QueryMerger<H> {
    pub handles: H,
    pub query: String,
    pub merge_scan_ordering: ScanOrdering,
}

impl<H> QueryMerger<H> {
    /// A merger whose scan declares no ordering.
    pub fn new(handles: H, query: String) -> (r: Self)
        ensures
            r.handles == handles,
            r.query@ == query@,
            r.merge_scan_ordering is Unordered,
    {
        QueryMerger { handles, query, merge_scan_ordering: ScanOrdering::Unordered }
    }

    /// The same merger with the scan ordering `ordering`.
    pub fn with_merge_scan_ordering(self, ordering: ScanOrdering) -> (r: Self)
        ensures
            r.handles == self.handles,
            r.query@ == self.query@,
            r.merge_scan_ordering == ordering,
    {
        QueryMerger { handles: self.handles, query: self.query, merge_scan_ordering: ordering }
    }

    /// A per-file scan ordering merges by sorting; the other two concatenate, declaring the
    /// order only for `Concatenated`.
    pub fn strategy(&self) -> (r: MergeStrategy)
        ensures
            match self.merge_scan_ordering {
                ScanOrdering::PerFile { columns } => r matches MergeStrategy::SortedMerge(c)
                    && c@.len() == columns@.len()
                    && forall|i: int| 0 <= i < c@.len() ==> (#[trigger] c@[i]).column@ == columns@[i].column@
                        && c@[i].descending == columns@[i].descending,
                ScanOrdering::Concatenated { .. } => r == MergeStrategy::Concatenate { declared: true },
                ScanOrdering::Unordered => r == MergeStrategy::Concatenate { declared: false },
            },
    {
        match &self.merge_scan_ordering {
            ScanOrdering::PerFile { columns } => {
                let mut c: Vec<ScanSortColumn> = Vec::new();
                let mut i: usize = 0;
                while i < columns.len()
                    invariant
                        i <= columns@.len(),
                        c@.len() == i,
                        forall|k: int| 0 <= k < i ==> (#[trigger] c@[k]).column@ == columns@[k].column@
                            && c@[k].descending == columns@[k].descending,
                    decreases columns@.len() - i,
                {
                    c.push(ScanSortColumn { column: columns[i].column.clone(), descending: columns[i].descending });
                    i = i + 1;
                }
                MergeStrategy::SortedMerge(c)
            },
            ScanOrdering::Concatenated { .. } => MergeStrategy::Concatenate { declared: true },
            ScanOrdering::Unordered => MergeStrategy::Concatenate { declared: false },
        }
    }
}

/// A sort key of a merge query: the column, ascending, and whether nulls come first (the
/// database's default: nulls last ascending, first descending).
pub struct SortKey {
    pub column: String,
    pub ascending: bool,
    pub nulls_first: bool,
}

/// The sort keys a per-file merge applies to its query's output.
pub fn merge_sort_keys(columns: &Vec<ScanSortColumn>) -> (r: Vec<SortKey>)
    ensures
        r@.len() == columns@.len(),
        forall|i: int| 0 <= i < r@.len() ==> (#[trigger] r@[i]).column@ == columns@[i].column@
            && r@[i].ascending == !columns@[i].descending && r@[i].nulls_first == columns@[i].descending,
{
    let mut keys: Vec<SortKey> = Vec::new();
    let mut i: usize = 0;
    while i < columns.len()
        invariant
            i <= columns@.len(),
            keys@.len() == i,
            forall|k: int| 0 <= k < i ==> (#[trigger] keys@[k]).column@ == columns@[k].column@
                && keys@[k].ascending == !columns@[k].descending && keys@[k].nulls_first == columns@[k].descending,
        decreases columns@.len() - i,
    {
        keys.push(SortKey {
            column: columns[i].column.clone(),
            ascending: !columns[i].descending,
            nulls_first: columns[i].descending,
        });
        i = i + 1;
    }
    keys
}

/// One key of a declared output ordering: the index of its column in the schema, and its
/// direction (nulls first exactly when descending, the database's default).
#[derive(Clone, Copy, Debug, PartialEq, Eq, Structural)]
pub struct PhysicalSortKey {
    pub index: usize,
    pub descending: bool,
    pub nulls_first: bool,
}

/// Whether no field is named `name`.
pub open spec fn column_missing(fields: Seq<Seq<char>>, name: Seq<char>) -> bool {
    forall|j: int| 0 <= j < fields.len() ==> fields[j] != name
}

/// Whether `i` is the position of the first field named `name`.
pub open spec fn is_first_index(fields: Seq<Seq<char>>, name: Seq<char>, i: int) -> bool {
    0 <= i < fields.len() && fields[i] == name && forall|j: int| 0 <= j < i ==> fields[j] != name
}

fn index_of(fields: &Vec<String>, name: &str) -> (r: Option<usize>)
    ensures
        match r {
            Some(i) => is_first_index(strings_view(fields@), name@, i as int),
            None => column_missing(strings_view(fields@), name@),
        },
{
    let ghost v = strings_view(fields@);
    let mut i: usize = 0;
    while i < fields.len()
        invariant
            i <= fields@.len(),
            v == strings_view(fields@),
            forall|j: int| 0 <= j < i ==> v[j] != name@,
        decreases fields@.len() - i,
    {
        if str_eq(fields[i].as_str(), name) {
            assert(v[i as int] == name@);
            return Some(i);
        }
        i = i + 1;
    }
    None
}

/// The declared output ordering of a scan over a schema with fields `fields`: one key per declared
/// column, at the first field of its name; `None` for no column; an error when a column is not a
/// field of the schema.
pub fn make_lex_ordering(fields: &Vec<String>, output_ordering: &Vec<ScanSortColumn>) -> (r: Result<Option<Vec<PhysicalSortKey>>, LakehouseError>)
    ensures
        (exists|k: int| 0 <= k < output_ordering@.len() && column_missing(strings_view(fields@), (#[trigger] output_ordering@[k]).column@))
            <==> r == Err::<Option<Vec<PhysicalSortKey>>, LakehouseError>(LakehouseError::UnknownColumn),
        r is Ok ==> (output_ordering@.len() == 0 <==> r->Ok_0 is None),
        r matches Ok(Some(keys)) ==> keys@.len() == output_ordering@.len() && forall|k: int| 0 <= k < keys@.len() ==> {
            &&& is_first_index(strings_view(fields@), output_ordering@[k].column@, (#[trigger] keys@[k]).index as int)
            &&& keys@[k].descending == output_ordering@[k].descending
            &&& keys@[k].nulls_first == output_ordering@[k].descending
        },
{
    let mut keys: Vec<PhysicalSortKey> = Vec::new();
    let mut k: usize = 0;
    while k < output_ordering.len()
        invariant
            k <= output_ordering@.len(),
            keys@.len() == k,
            forall|m: int| 0 <= m < k ==> {
                &&& is_first_index(strings_view(fields@), output_ordering@[m].column@, (#[trigger] keys@[m]).index as int)
                &&& keys@[m].descending == output_ordering@[m].descending
                &&& keys@[m].nulls_first == output_ordering@[m].descending
            },
        decreases output_ordering@.len() - k,
    {
        let c = &output_ordering[k];
        match index_of(fields, c.column.as_str()) {
            Some(i) => {
                keys.push(PhysicalSortKey { index: i, descending: c.descending, nulls_first: c.descending });
            },
            None => {
                assert(column_missing(strings_view(fields@), output_ordering@[k as int].column@));
                return Err(LakehouseError::UnknownColumn);
            },
        }
        k = k + 1;
    }
    assert forall|kk: int| 0 <= kk < output_ordering@.len() implies !column_missing(strings_view(fields@), (#[trigger] output_ordering@[kk]).column@) by {
        let i = keys@[kk].index as int;
        assert(is_first_index(strings_view(fields@), output_ordering@[kk].column@, i));
        assert(strings_view(fields@)[i] == output_ordering@[kk].column@);
    }
    if keys.len() == 0 {
        Ok(None)
    } else {
        Ok(Some(keys))
    }
}

/// Whether a merge plan streams its declared ordering, from the plan's text: a concatenated merge
/// must hold neither a `SortExec` nor a `SortPreservingMergeExec`; a per-file merge (which expects
/// the latter) must hold no `SortExec`. A plan that does not still merges correctly, buffering.
pub fn ordering_honored(plan_text: &str, per_file: bool) -> (r: bool)
    ensures
        per_file ==> r == !spec_contains(plan_text@, "SortExec"@),
        !per_file ==> r == (!spec_contains(plan_text@, "SortExec"@) && !spec_contains(plan_text@, "SortPreservingMergeExec"@)),
{
    if per_file {
        !str_contains(plan_text, "SortExec")
    } else {
        !str_contains(plan_text, "SortExec") && !str_contains(plan_text, "SortPreservingMergeExec")
    }
}

/// A plan that must keep its order runs as exactly one partition: executing several would
/// coalesce them and lose it.
pub fn assert_single_partition(partition_count: usize) -> (r: Result<(), LakehouseError>)
    ensures
        r is Ok <==> partition_count == 1,
        r is Err ==> r->Err_0 == LakehouseError::PlanNotSinglePartition,
{
    if partition_count != 1 {
        Err(LakehouseError::PlanNotSinglePartition)
    } else {
        Ok(())
    }
}

/// A merge may only record the sort order its plan's output ordering satisfies.
pub fn assert_ordering_satisfied(satisfied: bool) -> (r: Result<(), LakehouseError>)
    ensures
        r is Ok <==> satisfied,
        r is Err ==> r->Err_0 == LakehouseError::OrderingNotSatisfied,
{
    if satisfied {
        Ok(())
    } else {
        Err(LakehouseError::OrderingNotSatisfied)
    }
}

} // verus!
