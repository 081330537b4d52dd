use vstd::prelude::*;
use crate::audience_guard::{AudienceGuard, u128s_contain};
use crate::uuid_text::{parse_uuid, spec_parse_uuid};
use crate::view::str_eq;
use crate::view_definition::{append_decimal_i64, spec_decimal};

verus! {

/// Rows of `lakehouse_partitions` read in one page when the caller's scope is restricted.
pub const RESOLVE_CHUNK_ROWS: i64 = 1_000;

/// The distinct process or stream ids of a page's view instances, in order of first appearance
/// (`global` and other non-UUID ids have none).
pub open spec fn candidate_ids(instance_ids: Seq<Seq<char>>) -> Seq<u128>
    decreases instance_ids.len(),
{
    if instance_ids.len() == 0 {
        Seq::empty()
    } else {
        let prev = candidate_ids(instance_ids.drop_last());
        match spec_parse_uuid(instance_ids.last()) {
            Some(id) => if prev.contains(id) { prev } else { prev.push(id) },
            None => prev,
        }
    }
}

/// The ids of a page's view instances to resolve, and the id of each row (`None` when the
/// instance id is not a UUID).
pub fn chunk_candidates(instance_ids: &Vec<String>) -> (r: (Vec<Option<u128>>, Vec<u128>))
    ensures
        r.0@.len() == instance_ids@.len(),
        forall|i: int| 0 <= i < instance_ids@.len() ==> #[trigger] r.0@[i] == spec_parse_uuid(instance_ids@[i]@),
        r.1@ == candidate_ids(crate::partition::strings_view(instance_ids@)),
{
    let ghost sv = crate::partition::strings_view(instance_ids@);
    let mut row_ids: Vec<Option<u128>> = Vec::new();
    let mut candidates: Vec<u128> = Vec::new();
    let mut i: usize = 0;
    while i < instance_ids.len()
        invariant
            i <= instance_ids@.len(),
            sv == crate::partition::strings_view(instance_ids@),
            row_ids@.len() == i,
            forall|k: int| 0 <= k < i ==> #[trigger] row_ids@[k] == spec_parse_uuid(instance_ids@[k]@),
            candidates@ == candidate_ids(sv.take(i as int)),
        decreases instance_ids@.len() - i,
    {
        proof {
            assert(sv.take(i + 1).drop_last() =~= sv.take(i as int));
            assert(sv.take(i + 1).last() == instance_ids@[i as int]@);
        }
        let id = parse_uuid(instance_ids[i].as_str());
        match id {
            Some(u) => {
                if !u128s_contain(&candidates, u) {
                    candidates.push(u);
                }
            },
            None => {},
        }
        row_ids.push(id);
        i = i + 1;
    }
    assert(sv.take(instance_ids@.len() as int) =~= sv);
    (row_ids, candidates)
}

/// Whether a row of `lakehouse_partitions` is shown to a restricted caller: a partition of a
/// process or stream when that id is readable; a `global` partition when the guard shows global
/// rows of its view set; nothing else.
pub open spec fn row_visible(guard: AudienceGuard, view_set_name: Seq<char>, row_id: Option<u128>, instance_id: Seq<char>, readable: Seq<u128>) -> bool {
    match row_id {
        Some(id) => readable.contains(id),
        None => instance_id == "global"@ && (guard.spec_read_scope() is All
            || guard.spec_public_view_sets().contains(view_set_name) || guard.spec_lakehouse_admin()),
    }
}

/// The indices of the visible rows among the first `n` rows, in order.
pub open spec fn visible_rows(guard: AudienceGuard, names: Seq<Seq<char>>, row_ids: Seq<Option<u128>>, instance_ids: Seq<Seq<char>>, readable: Seq<u128>, n: int) -> Seq<int>
    decreases n,
{
    if n <= 0 {
        Seq::empty()
    } else if row_visible(guard, names[n - 1], row_ids[n - 1], instance_ids[n - 1], readable) {
        visible_rows(guard, names, row_ids, instance_ids, readable, n - 1).push(n - 1)
    } else {
        visible_rows(guard, names, row_ids, instance_ids, readable, n - 1)
    }
}

/// How many of `nb_visible` visible rows are kept when `already_kept` rows were kept before and
/// at most `limit` may be: all, or just enough to reach the limit.
pub open spec fn nb_taken(nb_visible: int, already_kept: int, limit: Option<usize>) -> int {
    match limit {
        Some(n) => if already_kept + nb_visible >= n && nb_visible > 0 {
            if n - already_kept >= 1 { n - already_kept } else { 1 }
        } else {
            nb_visible
        },
        None => nb_visible,
    }
}

/// Indices as `usize`.
pub open spec fn as_usizes(s: Seq<int>) -> Seq<usize> {
    s.map_values(|x: int| x as usize)
}

proof fn lemma_visible_bounds(guard: AudienceGuard, names: Seq<Seq<char>>, row_ids: Seq<Option<u128>>, insts: Seq<Seq<char>>, readable: Seq<u128>, n: int)
    ensures
        forall|k: int| 0 <= k < visible_rows(guard, names, row_ids, insts, readable, n).len() ==>
            0 <= #[trigger] visible_rows(guard, names, row_ids, insts, readable, n)[k] < n,
    decreases n,
{
    if n > 0 {
        lemma_visible_bounds(guard, names, row_ids, insts, readable, n - 1);
        let a = visible_rows(guard, names, row_ids, insts, readable, n - 1);
        let b = visible_rows(guard, names, row_ids, insts, readable, n);
        assert forall|k: int| 0 <= k < b.len() implies 0 <= #[trigger] b[k] < n by {
            if row_visible(guard, names[n - 1], row_ids[n - 1], insts[n - 1], readable) {
                assert(b == a.push(n - 1));
                if k < a.len() {
                    assert(b[k] == a[k]);
                }
            }
        }
    }
}

proof fn lemma_visible_prefix(guard: AudienceGuard, names: Seq<Seq<char>>, row_ids: Seq<Option<u128>>, insts: Seq<Seq<char>>, readable: Seq<u128>, m: int, n: int)
    requires
        0 <= m <= n,
    ensures
        visible_rows(guard, names, row_ids, insts, readable, m).len() <= visible_rows(guard, names, row_ids, insts, readable, n).len(),
        forall|k: int| 0 <= k < visible_rows(guard, names, row_ids, insts, readable, m).len() ==>
            #[trigger] visible_rows(guard, names, row_ids, insts, readable, m)[k] == visible_rows(guard, names, row_ids, insts, readable, n)[k],
    decreases n - m,
{
    if m < n {
        lemma_visible_prefix(guard, names, row_ids, insts, readable, m, n - 1);
        let a = visible_rows(guard, names, row_ids, insts, readable, n - 1);
        let b = visible_rows(guard, names, row_ids, insts, readable, n);
        assert forall|k: int| 0 <= k < a.len() implies #[trigger] a[k] == b[k] by {
            if row_visible(guard, names[n - 1], row_ids[n - 1], insts[n - 1], readable) {
                assert(b == a.push(n - 1));
            }
        }
    }
}

/// Whether `kept` are the first visible rows `vis` a page keeps, and `reached` whether the limit
/// was reached.
pub open spec fn chunk_kept_is(kept: Seq<usize>, reached: bool, vis: Seq<int>, already_kept: int, limit: Option<usize>) -> bool {
    &&& kept.len() == nb_taken(vis.len() as int, already_kept, limit)
    &&& forall|k: int| 0 <= k < kept.len() ==> #[trigger] kept[k] == vis[k]
    &&& reached == (match limit {
        Some(n) => already_kept + vis.len() >= n && vis.len() > 0,
        None => false,
    })
}

/// Filters one page of rows for a restricted caller: the indices of the rows kept, in order, and
/// whether the limit was reached (it is checked after each kept row, so at least one more row is
/// kept when any is visible).
pub fn filter_chunk(guard: &AudienceGuard, view_set_names: &Vec<String>, instance_ids: &Vec<String>,
    row_ids: &Vec<Option<u128>>, readable: &Vec<u128>, already_kept: usize, limit: Option<usize>) -> (r: (Vec<usize>, bool))
    requires
        view_set_names@.len() == instance_ids@.len(),
        row_ids@.len() == instance_ids@.len(),
        already_kept + instance_ids@.len() <= usize::MAX,
    ensures
        chunk_kept_is(r.0@, r.1, visible_rows(*guard, crate::partition::strings_view(view_set_names@), row_ids@,
            crate::partition::strings_view(instance_ids@), readable@, instance_ids@.len() as int), already_kept as int, limit),
{
    let ghost names = crate::partition::strings_view(view_set_names@);
    let ghost insts = crate::partition::strings_view(instance_ids@);
    let mut kept: Vec<usize> = Vec::new();
    let mut i: usize = 0;
    while i < instance_ids.len()
        invariant
            i <= instance_ids@.len(),
            view_set_names@.len() == instance_ids@.len(),
            row_ids@.len() == instance_ids@.len(),
            already_kept + instance_ids@.len() <= usize::MAX,
            names == crate::partition::strings_view(view_set_names@),
            insts == crate::partition::strings_view(instance_ids@),
            kept@ == as_usizes(visible_rows(*guard, names, row_ids@, insts, readable@, i as int)),
            match limit {
                Some(n) => kept@.len() == 0 || already_kept + kept@.len() < n,
                None => true,
            },
        decreases instance_ids@.len() - i,
    {
        let keep = match row_ids[i] {
            Some(id) => u128s_contain(readable, id),
            None => {
                proof { reveal_strlit("global"); }
                str_eq(instance_ids[i].as_str(), "global") && guard.global_rows_visible(view_set_names[i].as_str())
            },
        };
        assert(keep == row_visible(*guard, names[i as int], row_ids@[i as int], insts[i as int], readable@));
        if keep {
            let ghost before = kept@;
            kept.push(i);
            proof {
                assert(kept@ =~= as_usizes(visible_rows(*guard, names, row_ids@, insts, readable@, i + 1)));
            }
            match limit {
                Some(n) => {
                    if already_kept + kept.len() >= n {
                        proof {
                            let n_all = instance_ids@.len() as int;
                            lemma_visible_prefix(*guard, names, row_ids@, insts, readable@, i + 1, n_all);
                            let vis = visible_rows(*guard, names, row_ids@, insts, readable@, n_all);
                            let vm = visible_rows(*guard, names, row_ids@, insts, readable@, i + 1);
                            assert(kept@.len() == vm.len());
                            assert(kept@.len() == nb_taken(vis.len() as int, already_kept as int, limit));
                            lemma_visible_bounds(*guard, names, row_ids@, insts, readable@, i + 1);
                            assert forall|k: int| 0 <= k < kept@.len() implies #[trigger] kept@[k] == vis[k] by {
                                assert(0 <= vm[k] < i + 1);
                                assert(kept@[k] == vm[k]);
                                assert(vm[k] == vis[k]);
                            }
                        }
                        return (kept, true);
                    }
                },
                None => {},
            }
        } else {
            proof {
                assert(kept@ =~= as_usizes(visible_rows(*guard, names, row_ids@, insts, readable@, i + 1)));
            }
        }
        i = i + 1;
    }
    proof {
        let vis = visible_rows(*guard, names, row_ids@, insts, readable@, instance_ids@.len() as int);
        lemma_visible_bounds(*guard, names, row_ids@, insts, readable@, instance_ids@.len() as int);
        assert forall|k: int| 0 <= k < kept@.len() implies #[trigger] kept@[k] == vis[k] by {
            assert(0 <= vis[k] < instance_ids@.len());
            assert(kept@[k] == as_usizes(vis)[k]);
        }
    }
    (kept, false)
}

/// The columns every page query of a restricted listing reads.
pub const RESTRICTED_COLUMNS: &'static str = "view_set_name,\n                    view_instance_id,\n                    begin_insert_time,\n                    end_insert_time,\n                    min_event_time,\n                    max_event_time,\n                    updated,\n                    file_path,\n                    file_size,\n                    file_schema_hash,\n                    source_data_hash,\n                    num_rows,\n                    partition_format_version,\n                    sort_order,\n                    max_sort_key_time";

/// The query of one page of `lakehouse_partitions`, in physical row order, from `offset`.
pub open spec fn spec_page_query(offset: i64) -> Seq<char> {
    "SELECT "@ + RESTRICTED_COLUMNS@ + "\n                 FROM lakehouse_partitions\n                 ORDER BY ctid\n                 LIMIT "@
        + spec_decimal(RESOLVE_CHUNK_ROWS as int) + " OFFSET "@ + spec_decimal(offset as int) + ";"@
}

pub fn page_query(offset: i64) -> (r: String)
    ensures
        r@ == spec_page_query(offset),
{
    let mut s = String::from_str("SELECT ");
    s.append(RESTRICTED_COLUMNS);
    s.append("\n                 FROM lakehouse_partitions\n                 ORDER BY ctid\n                 LIMIT ");
    append_decimal_i64(&mut s, RESOLVE_CHUNK_ROWS);
    s.append(" OFFSET ");
    append_decimal_i64(&mut s, offset);
    s.append(";");
    assert(s@ =~= spec_page_query(offset));
    s
}

/// Where a restricted listing reads its next page from, once a page of `page_len` rows was
/// filtered: nowhere (it stops) when the page was empty, the limit was reached, or the page was
/// short (the last one); otherwise one page further.
pub fn next_page_offset(page_len: usize, limit_reached: bool, offset: i64) -> (r: Option<i64>)
    requires
        offset <= i64::MAX - RESOLVE_CHUNK_ROWS,
    ensures
        (page_len == 0 || limit_reached || page_len < RESOLVE_CHUNK_ROWS) ==> r is None,
        !(page_len == 0 || limit_reached || page_len < RESOLVE_CHUNK_ROWS) ==> r == Some((offset + RESOLVE_CHUNK_ROWS) as i64),
{
    if page_len == 0 || limit_reached || (page_len as u64) < (RESOLVE_CHUNK_ROWS as u64) {
        None
    } else {
        Some(offset + RESOLVE_CHUNK_ROWS)
    }
}

} // verus!
