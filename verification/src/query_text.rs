use vstd::prelude::*;
use crate::time_range::TimeRange;
use crate::time_text::{rfc3339, spec_rfc3339};
use crate::uuid_text::{spec_hyphenated, uuid_hyphenated};
use crate::view::chars_of;
use crate::view_definition::{append_decimal_i64, spec_decimal};

verus! {

// The SQL texts the just-in-time partition generation runs over the `blocks` view. Ids appear in
// their hyphenated form and instants in RFC 3339.

/// Whole seconds of a duration given in nanoseconds, truncated toward zero (as
/// `TimeDelta::num_seconds` counts them).
pub open spec fn spec_num_seconds(nanos: i64) -> int {
    if nanos >= 0 {
        nanos as int / 1_000_000_000
    } else {
        -((-(nanos as int)) / 1_000_000_000)
    }
}

/// A slice as interval text that `date_bin` parses: `"<seconds> seconds"`.
pub open spec fn spec_interval_literal(slice_nanos: i64) -> Seq<char> {
    spec_decimal(spec_num_seconds(slice_nanos)) + " seconds"@
}

pub fn interval_literal(slice_nanos: i64) -> (r: String)
    ensures
        r@ == spec_interval_literal(slice_nanos),
{
    let secs: i64 = if slice_nanos >= 0 {
        slice_nanos / 1_000_000_000
    } else {
        let m: i128 = -(slice_nanos as i128);
        let q: i128 = m / 1_000_000_000;
        assert(q <= 9_223_372_037) by (nonlinear_arith)
            requires m <= 9_223_372_036_854_775_808, q == m / 1_000_000_000;
        (-q) as i64
    };
    let mut s = String::new();
    append_decimal_i64(&mut s, secs);
    s.append(" seconds");
    assert(s@ =~= spec_interval_literal(slice_nanos));
    s
}

/// The identity filter of a process's blocks carrying a stream tag.
pub open spec fn spec_process_identity_predicate(process_id: u128, stream_tag: Seq<char>) -> Seq<char> {
    "process_id = '"@ + spec_hyphenated(process_id) + "' AND array_has( \"streams.tags\", '"@ + stream_tag + "' )"@
}

pub fn process_identity_predicate(process_id: u128, stream_tag: &str) -> (r: String)
    ensures
        r@ == spec_process_identity_predicate(process_id, stream_tag@),
{
    let mut s = String::from_str("process_id = '");
    let pid = uuid_hyphenated(process_id);
    s.append(pid.as_str());
    s.append("' AND array_has( \"streams.tags\", '");
    s.append(stream_tag);
    s.append("' )");
    assert(s@ =~= spec_process_identity_predicate(process_id, stream_tag@));
    s
}

/// The identity filter of a stream's blocks.
pub open spec fn spec_stream_identity_predicate(stream_id: u128) -> Seq<char> {
    "stream_id = '"@ + spec_hyphenated(stream_id) + "'"@
}

pub fn stream_identity_predicate(stream_id: u128) -> (r: String)
    ensures
        r@ == spec_stream_identity_predicate(stream_id),
{
    let mut s = String::from_str("stream_id = '");
    let sid = uuid_hyphenated(stream_id);
    s.append(sid.as_str());
    s.append("'");
    assert(s@ =~= spec_stream_identity_predicate(stream_id));
    s
}

/// The per-bucket block count query over an insert range, under an identity filter.
pub open spec fn spec_bucket_counts_sql(slice_nanos: i64, identity_predicate: Seq<char>, insert_range: TimeRange) -> Seq<char> {
    "SELECT date_bin('"@ + spec_interval_literal(slice_nanos)
        + "', insert_time) as bucket, COUNT(*) as nb_blocks\n             FROM source\n             WHERE "@
        + identity_predicate + "\n             AND insert_time >= '"@ + spec_rfc3339(insert_range.begin)
        + "'\n             AND insert_time < '"@ + spec_rfc3339(insert_range.end)
        + "'\n             GROUP BY bucket\n             ORDER BY bucket;"@
}

pub fn bucket_counts_sql(slice_nanos: i64, identity_predicate: &str, insert_range: TimeRange) -> (r: String)
    ensures
        r@ == spec_bucket_counts_sql(slice_nanos, identity_predicate@, insert_range),
{
    let mut s = String::from_str("SELECT date_bin('");
    let lit = interval_literal(slice_nanos);
    s.append(lit.as_str());
    s.append("', insert_time) as bucket, COUNT(*) as nb_blocks\n             FROM source\n             WHERE ");
    s.append(identity_predicate);
    s.append("\n             AND insert_time >= '");
    let b = rfc3339(insert_range.begin);
    s.append(b.as_str());
    s.append("'\n             AND insert_time < '");
    let e = rfc3339(insert_range.end);
    s.append(e.as_str());
    s.append("'\n             GROUP BY bucket\n             ORDER BY bucket;");
    assert(s@ =~= spec_bucket_counts_sql(slice_nanos, identity_predicate@, insert_range));
    s
}

/// The process-variant batch query: block columns and `stream_id` only, ordered by insert time
/// then block id.
pub open spec fn spec_process_batch_sql(process_id: u128, stream_tag: Seq<char>, range: TimeRange) -> Seq<char> {
    "SELECT block_id, stream_id, process_id, begin_time, end_time, begin_ticks, end_ticks, nb_objects, object_offset, payload_size, insert_time\n             FROM source\n             WHERE process_id = '"@
        + spec_hyphenated(process_id) + "'\n             AND array_has( \"streams.tags\", '"@ + stream_tag
        + "' )\n             AND insert_time >= '"@ + spec_rfc3339(range.begin)
        + "'\n             AND insert_time < '"@ + spec_rfc3339(range.end)
        + "'\n             ORDER BY insert_time, block_id;"@
}

pub fn process_batch_sql(process_id: u128, stream_tag: &str, range: TimeRange) -> (r: String)
    ensures
        r@ == spec_process_batch_sql(process_id, stream_tag@, range),
{
    let mut s = String::from_str("SELECT block_id, stream_id, process_id, begin_time, end_time, begin_ticks, end_ticks, nb_objects, object_offset, payload_size, insert_time\n             FROM source\n             WHERE process_id = '");
    let pid = uuid_hyphenated(process_id);
    s.append(pid.as_str());
    s.append("'\n             AND array_has( \"streams.tags\", '");
    s.append(stream_tag);
    s.append("' )\n             AND insert_time >= '");
    let b = rfc3339(range.begin);
    s.append(b.as_str());
    s.append("'\n             AND insert_time < '");
    let e = rfc3339(range.end);
    s.append(e.as_str());
    s.append("'\n             ORDER BY insert_time, block_id;");
    assert(s@ =~= spec_process_batch_sql(process_id, stream_tag@, range));
    s
}

/// The query gathering, once per process generation, the metadata of each stream of the process
/// carrying the tag.
pub open spec fn spec_stream_metadata_sql(process_id: u128, stream_tag: Seq<char>, insert_range: TimeRange) -> Seq<char> {
    "SELECT stream_id,\n               first_value(\"process_id\")                    as process_id,\n               first_value(\"streams.dependencies_metadata\") as dependencies_metadata,\n               first_value(\"streams.objects_metadata\")      as objects_metadata,\n               first_value(\"streams.tags\")                  as tags,\n               first_value(\"streams.properties\")            as properties,\n               first_value(\"streams.format\")                as format\n        FROM source\n        WHERE process_id = '"@
        + spec_hyphenated(process_id) + "'\n        AND array_has( \"streams.tags\", '"@ + stream_tag
        + "' )\n        AND insert_time >= '"@ + spec_rfc3339(insert_range.begin)
        + "'\n        AND insert_time < '"@ + spec_rfc3339(insert_range.end) + "'\n        GROUP BY stream_id;"@
}

pub fn stream_metadata_sql(process_id: u128, stream_tag: &str, insert_range: TimeRange) -> (r: String)
    ensures
        r@ == spec_stream_metadata_sql(process_id, stream_tag@, insert_range),
{
    let mut s = String::from_str("SELECT stream_id,\n               first_value(\"process_id\")                    as process_id,\n               first_value(\"streams.dependencies_metadata\") as dependencies_metadata,\n               first_value(\"streams.objects_metadata\")      as objects_metadata,\n               first_value(\"streams.tags\")                  as tags,\n               first_value(\"streams.properties\")            as properties,\n               first_value(\"streams.format\")                as format\n        FROM source\n        WHERE process_id = '");
    let pid = uuid_hyphenated(process_id);
    s.append(pid.as_str());
    s.append("'\n        AND array_has( \"streams.tags\", '");
    s.append(stream_tag);
    s.append("' )\n        AND insert_time >= '");
    let b = rfc3339(insert_range.begin);
    s.append(b.as_str());
    s.append("'\n        AND insert_time < '");
    let e = rfc3339(insert_range.end);
    s.append(e.as_str());
    s.append("'\n        GROUP BY stream_id;");
    assert(s@ =~= spec_stream_metadata_sql(process_id, stream_tag@, insert_range));
    s
}

/// The query finding the insert times of a process's tagged blocks overlapping an event range.
pub open spec fn spec_process_insert_range_sql(process_id: u128, stream_tag: Seq<char>, query_range: TimeRange) -> Seq<char> {
    "SELECT MIN(insert_time) as min_insert_time, MAX(insert_time) as max_insert_time\n        FROM source\n        WHERE process_id = '"@
        + spec_hyphenated(process_id) + "'\n        AND array_has( \"streams.tags\", '"@ + stream_tag
        + "' )\n        AND begin_time <= '"@ + spec_rfc3339(query_range.end)
        + "'\n        AND end_time >= '"@ + spec_rfc3339(query_range.begin) + "';"@
}

pub fn process_insert_range_sql(process_id: u128, stream_tag: &str, query_range: TimeRange) -> (r: String)
    ensures
        r@ == spec_process_insert_range_sql(process_id, stream_tag@, query_range),
{
    let mut s = String::from_str("SELECT MIN(insert_time) as min_insert_time, MAX(insert_time) as max_insert_time\n        FROM source\n        WHERE process_id = '");
    let pid = uuid_hyphenated(process_id);
    s.append(pid.as_str());
    s.append("'\n        AND array_has( \"streams.tags\", '");
    s.append(stream_tag);
    s.append("' )\n        AND begin_time <= '");
    let e = rfc3339(query_range.end);
    s.append(e.as_str());
    s.append("'\n        AND end_time >= '");
    let b = rfc3339(query_range.begin);
    s.append(b.as_str());
    s.append("';");
    assert(s@ =~= spec_process_insert_range_sql(process_id, stream_tag@, query_range));
    s
}

/// The query finding the insert times of a stream's blocks overlapping an event range.
pub open spec fn spec_stream_insert_range_sql(stream_id: u128, query_range: TimeRange) -> Seq<char> {
    "SELECT MIN(insert_time) as min_insert_time, MAX(insert_time) as max_insert_time\n        FROM source\n        WHERE stream_id = '"@
        + spec_hyphenated(stream_id) + "'\n        AND begin_time <= '"@ + spec_rfc3339(query_range.end)
        + "'\n        AND end_time >= '"@ + spec_rfc3339(query_range.begin) + "';"@
}

pub fn stream_insert_range_sql(stream_id: u128, query_range: TimeRange) -> (r: String)
    ensures
        r@ == spec_stream_insert_range_sql(stream_id, query_range),
{
    let mut s = String::from_str("SELECT MIN(insert_time) as min_insert_time, MAX(insert_time) as max_insert_time\n        FROM source\n        WHERE stream_id = '");
    let sid = uuid_hyphenated(stream_id);
    s.append(sid.as_str());
    s.append("'\n        AND begin_time <= '");
    let e = rfc3339(query_range.end);
    s.append(e.as_str());
    s.append("'\n        AND end_time >= '");
    let b = rfc3339(query_range.begin);
    s.append(b.as_str());
    s.append("';");
    assert(s@ =~= spec_stream_insert_range_sql(stream_id, query_range));
    s
}

/// The query reading a stream's blocks of one insert range (a segment, or a batch window: the two
/// differ only in indentation), ordered by insert time then block id.
pub open spec fn spec_stream_blocks_sql(stream_id: u128, range: TimeRange, batched: bool) -> Seq<char> {
    let indent = if batched { "\n                 "@ } else { "\n             "@ };
    "SELECT block_id, stream_id, process_id, begin_time, end_time, begin_ticks, end_ticks, nb_objects, object_offset, payload_size, insert_time, \"streams.format\""@
        + indent + "FROM source"@ + indent + "WHERE stream_id = '"@ + spec_hyphenated(stream_id) + "'"@
        + indent + "AND insert_time >= '"@ + spec_rfc3339(range.begin) + "'"@
        + indent + "AND insert_time < '"@ + spec_rfc3339(range.end) + "'"@
        + indent + "ORDER BY insert_time, block_id;"@
}

pub fn stream_blocks_sql(stream_id: u128, range: TimeRange, batched: bool) -> (r: String)
    ensures
        r@ == spec_stream_blocks_sql(stream_id, range, batched),
{
    let indent: &str = if batched { "\n                 " } else { "\n             " };
    let mut s = String::from_str("SELECT block_id, stream_id, process_id, begin_time, end_time, begin_ticks, end_ticks, nb_objects, object_offset, payload_size, insert_time, \"streams.format\"");
    s.append(indent);
    s.append("FROM source");
    s.append(indent);
    s.append("WHERE stream_id = '");
    let sid = uuid_hyphenated(stream_id);
    s.append(sid.as_str());
    s.append("'");
    s.append(indent);
    s.append("AND insert_time >= '");
    let b = rfc3339(range.begin);
    s.append(b.as_str());
    s.append("'");
    s.append(indent);
    s.append("AND insert_time < '");
    let e = rfc3339(range.end);
    s.append(e.as_str());
    s.append("'");
    s.append(indent);
    s.append("ORDER BY insert_time, block_id;");
    assert(s@ =~= spec_stream_blocks_sql(stream_id, range, batched));
    s
}

/// The query reading the blocks (with their stream and process columns) of the streams carrying a
/// tag, over an insert range.
pub open spec fn spec_source_blocks_sql(source_stream_tag: Seq<char>, insert_range: TimeRange) -> Seq<char> {
    "\n          SELECT block_id, stream_id, process_id, begin_time, begin_ticks, end_time, end_ticks, nb_objects,\n              object_offset, payload_size, insert_time,\n              \"streams.dependencies_metadata\", \"streams.objects_metadata\", \"streams.tags\", \"streams.properties\",\n              \"processes.start_time\", \"processes.start_ticks\", \"processes.tsc_frequency\", \"processes.exe\",\n              \"processes.username\", \"processes.realname\", \"processes.computer\", \"processes.distro\", \"processes.cpu_brand\",\n              \"processes.parent_process_id\", \"processes.properties\"\n          FROM source\n          WHERE array_has( \"streams.tags\", '"@
        + source_stream_tag + "' )\n          AND insert_time >= '"@ + spec_rfc3339(insert_range.begin)
        + "'\n          AND insert_time < '"@ + spec_rfc3339(insert_range.end) + "'\n          ;"@
}

pub fn source_blocks_sql(source_stream_tag: &str, insert_range: TimeRange) -> (r: String)
    ensures
        r@ == spec_source_blocks_sql(source_stream_tag@, insert_range),
{
    let mut s = String::from_str("\n          SELECT block_id, stream_id, process_id, begin_time, begin_ticks, end_time, end_ticks, nb_objects,\n              object_offset, payload_size, insert_time,\n              \"streams.dependencies_metadata\", \"streams.objects_metadata\", \"streams.tags\", \"streams.properties\",\n              \"processes.start_time\", \"processes.start_ticks\", \"processes.tsc_frequency\", \"processes.exe\",\n              \"processes.username\", \"processes.realname\", \"processes.computer\", \"processes.distro\", \"processes.cpu_brand\",\n              \"processes.parent_process_id\", \"processes.properties\"\n          FROM source\n          WHERE array_has( \"streams.tags\", '");
    s.append(source_stream_tag);
    s.append("' )\n          AND insert_time >= '");
    let b = rfc3339(insert_range.begin);
    s.append(b.as_str());
    s.append("'\n          AND insert_time < '");
    let e = rfc3339(insert_range.end);
    s.append(e.as_str());
    s.append("'\n          ;");
    assert(s@ =~= spec_source_blocks_sql(source_stream_tag@, insert_range));
    s
}

/// `s` with every match of the non-empty pattern `pat` replaced by `to`, matches found from the
/// left and not overlapping.
pub open spec fn spec_replace(s: Seq<char>, pat: Seq<char>, to: Seq<char>) -> Seq<char>
    decreases s.len(),
{
    if pat.len() == 0 || s.len() < pat.len() {
        s
    } else if s.subrange(0, pat.len() as int) == pat {
        to + spec_replace(s.subrange(pat.len() as int, s.len() as int), pat, to)
    } else {
        seq![s[0]] + spec_replace(s.subrange(1, s.len() as int), pat, to)
    }
}

proof fn lemma_replace_step(s: Seq<char>, i: int, pat: Seq<char>, to: Seq<char>)
    requires
        0 <= i,
        i + pat.len() <= s.len(),
        pat.len() > 0,
    ensures
        s.subrange(i, i + pat.len()) == pat ==> spec_replace(s.subrange(i, s.len() as int), pat, to)
            == to + spec_replace(s.subrange(i + pat.len(), s.len() as int), pat, to),
        s.subrange(i, i + pat.len()) != pat ==> spec_replace(s.subrange(i, s.len() as int), pat, to)
            == seq![s[i]] + spec_replace(s.subrange(i + 1, s.len() as int), pat, to),
{
    let t = s.subrange(i, s.len() as int);
    assert(t.subrange(0, pat.len() as int) =~= s.subrange(i, i + pat.len()));
    assert(t.subrange(pat.len() as int, t.len() as int) =~= s.subrange(i + pat.len(), s.len() as int));
    assert(t.subrange(1, t.len() as int) =~= s.subrange(i + 1, s.len() as int));
}

/// `s` with every match of the non-empty pattern `pat` replaced by `to` (see `spec_replace`).
fn str_replace(s: &str, pat: &str, to: &str) -> (r: String)
    requires
        pat@.len() > 0,
    ensures
        r@ == spec_replace(s@, pat@, to@),
{
    let text = chars_of(s);
    let p = chars_of(pat);
    let n = text.len();
    let m = p.len();
    let mut out = String::new();
    let mut run_start: usize = 0;
    let mut i: usize = 0;
    assert(out@ + s@.subrange(0, 0) + s@.subrange(0, n as int) =~= s@);
    while m <= n - i
        invariant
            text@ == s@,
            p@ == pat@,
            n == s@.len(),
            m == pat@.len(),
            m > 0,
            run_start <= i <= n,
            out@ + s@.subrange(run_start as int, i as int) + spec_replace(s@.subrange(i as int, n as int), pat@, to@)
                == spec_replace(s@, pat@, to@),
        decreases n - i,
    {
        let mut j: usize = 0;
        while j < m && text[i + j] == p[j]
            invariant
                i + m <= n,
                text@ == s@,
                p@ == pat@,
                n == s@.len(),
                m == pat@.len(),
                j <= m,
                forall|k: int| 0 <= k < j ==> s@[i + k] == pat@[k],
            decreases m - j,
        {
            j = j + 1;
        }
        proof {
            lemma_replace_step(s@, i as int, pat@, to@);
        }
        let ghost prev = out@ + s@.subrange(run_start as int, i as int);
        if j == m {
            assert(s@.subrange(i as int, i + m) =~= pat@);
            let run = s.substring_char(run_start, i);
            out.append(run);
            out.append(to);
            assert(out@ + s@.subrange(i + m, i + m) =~= prev + to@);
            run_start = i + m;
            i = i + m;
        } else {
            assert(s@.subrange(i as int, i + m)[j as int] != pat@[j as int]);
            assert(out@ + s@.subrange(run_start as int, i + 1) =~= prev + seq![s@[i as int]]);
            i = i + 1;
        }
    }
    assert(spec_replace(s@.subrange(i as int, n as int), pat@, to@) == s@.subrange(i as int, n as int));
    let rest = s.substring_char(run_start, n);
    out.append(rest);
    assert(s@.subrange(run_start as int, i as int) + s@.subrange(i as int, n as int) =~= s@.subrange(run_start as int, n as int));
    out
}

/// A query template over an insert range: `{begin}`, then `{end}`, replaced by the range's bounds
/// in RFC 3339.
pub open spec fn spec_fill_time_range(template: Seq<char>, range: TimeRange) -> Seq<char> {
    spec_replace(spec_replace(template, "{begin}"@, spec_rfc3339(range.begin)), "{end}"@, spec_rfc3339(range.end))
}

pub fn fill_time_range(template: &str, range: TimeRange) -> (r: String)
    ensures
        r@ == spec_fill_time_range(template@, range),
{
    proof {
        reveal_strlit("{begin}");
        reveal_strlit("{end}");
    }
    let b = rfc3339(range.begin);
    let e = rfc3339(range.end);
    let with_begin = str_replace(template, "{begin}", b.as_str());
    str_replace(with_begin.as_str(), "{end}", e.as_str())
}

} // verus!
