use vstd::prelude::*;
use crate::view_definition::{ViewDefinition, ViewDefinitionView, ViewOptions, ViewOptionsView, ddl_text, spec_ddl_text, spec_decimal, spec_decimal_nat, spec_join};

verus! {

/// Counts the source rows of an insert range: the objects of the log blocks inserted in it.
pub const COUNT_SRC_QUERY: &'static str = r#"
        SELECT sum(nb_objects) as count
        FROM blocks
        WHERE array_has("streams.tags", 'log')
        AND insert_time >= '{begin}'
        AND insert_time < '{end}'
        "#;

/// Aggregates log entries by minute, process, level, target and audience. `audience` is part of
/// the grouping because one process can span two audiences; it is not part of the declared merge
/// sort order.
pub const EXTRACT_QUERY: &'static str = r#"
        SELECT date_bin('1 minute', time) as time_bin,
               process_id,
               level,
               target,
               count(*) as count,
               arrow_cast(max(audience), 'Dictionary(Int32, Utf8)') as audience
        FROM log_entries
        WHERE insert_time >= '{begin}'
        AND insert_time < '{end}'
        GROUP BY process_id, level, target, time_bin, audience
        "#;

/// Combines partitions of `log_stats`, with the same grouping as the extract query.
pub const MERGE_QUERY: &'static str = r#"
        SELECT time_bin,
               process_id,
               level,
               target,
               sum(count) as count,
               arrow_cast(max(audience), 'Dictionary(Int32, Utf8)') as audience
        FROM {source}
        GROUP BY process_id, level, target, time_bin, audience
        "#;

/// `log_stats` as a view definition, with exactly these texts and values.
pub open spec fn spec_log_stats_view_definition() -> ViewDefinitionView {
    ViewDefinitionView {
        view_set_name: "log_stats"@,
        extract_query: EXTRACT_QUERY@,
        count_src_query: COUNT_SRC_QUERY@,
        merge_partitions_query: MERGE_QUERY@,
        update_group: 3000,
        options: ViewOptionsView {
            min_time_column: "time_bin"@,
            max_time_column: "time_bin"@,
            source_partition_delta: "1 day"@,
            merge_partition_delta: "1 day"@,
            merge_sort_order: Some(seq!["time_bin"@, "process_id"@, "level"@, "target"@]),
        },
    }
}

/// `log_stats`'s definition: the single source of truth for the migration seed and the view
/// built from it. Time first in the merge sort order keeps merged partitions time-local.
pub fn log_stats_view_definition() -> (r: ViewDefinition)
    ensures
        r@ == spec_log_stats_view_definition(),
{
    let mut cols: Vec<String> = Vec::new();
    cols.push(String::from_str("time_bin"));
    cols.push(String::from_str("process_id"));
    cols.push(String::from_str("level"));
    cols.push(String::from_str("target"));
    let r = ViewDefinition {
        view_set_name: String::from_str("log_stats"),
        extract_query: String::from_str(EXTRACT_QUERY),
        count_src_query: String::from_str(COUNT_SRC_QUERY),
        merge_partitions_query: String::from_str(MERGE_QUERY),
        update_group: 3000,
        options: ViewOptions {
            min_time_column: String::from_str("time_bin"),
            max_time_column: String::from_str("time_bin"),
            source_partition_delta: String::from_str("1 day"),
            merge_partition_delta: String::from_str("1 day"),
            merge_sort_order: Some(cols),
        },
    };
    assert(crate::partition::strings_view(cols@) =~= seq!["time_bin"@, "process_id"@, "level"@, "target"@]);
    r
}

/// The `CREATE MATERIALIZED VIEW log_stats WITH (...)` text equivalent to
/// `log_stats_view_definition()`, kept for display and audit.
pub fn log_stats_ddl_text() -> (r: String)
    ensures
        r@ == spec_ddl_text(spec_log_stats_view_definition()),
{
    let def = log_stats_view_definition();
    ddl_text(&def)
}

/// Whether `t` occurs in `s` as a contiguous run of characters.
pub open spec fn contains_text(s: Seq<char>, t: Seq<char>) -> bool {
    exists|i: int| 0 <= i && i + t.len() <= s.len() && #[trigger] s.subrange(i, i + t.len()) == t
}

proof fn lemma_contains_middle(a: Seq<char>, t: Seq<char>, b: Seq<char>)
    ensures
        contains_text(a + t + b, t),
{
    let s = a + t + b;
    assert(s.subrange(a.len() as int, (a.len() + t.len()) as int) =~= t);
}

/// The layout of the `log_stats` DDL text: it opens with `CREATE MATERIALIZED VIEW log_stats WITH (`,
/// wraps each of the three queries in `$$`, sets `update_group = 3000`, `time_column = 'time_bin'`,
/// both partition deltas to one day and the merge sort order to
/// `time_bin, process_id, level, target`, and closes with `)`.
pub proof fn log_stats_ddl_layout()
    ensures
        spec_ddl_text(spec_log_stats_view_definition()) == "CREATE MATERIALIZED VIEW log_stats WITH (\n  extract_query = "@
            + ("$$"@ + EXTRACT_QUERY@ + "$$"@) + ",\n  count_src_query = "@
            + ("$$"@ + COUNT_SRC_QUERY@ + "$$"@) + ",\n  merge_partitions_query = "@
            + ("$$"@ + MERGE_QUERY@ + "$$"@)
            + ",\n  update_group = 3000,\n  time_column = 'time_bin',\n  source_partition_delta = '1 day',\n  merge_partition_delta = '1 day',\n  merge_sort_order = 'time_bin, process_id, level, target'\n)"@,
        "CREATE MATERIALIZED VIEW log_stats WITH ("@.is_prefix_of(spec_ddl_text(spec_log_stats_view_definition())),
        ")"@.is_suffix_of(spec_ddl_text(spec_log_stats_view_definition())),
        contains_text(spec_ddl_text(spec_log_stats_view_definition()), "$$"@ + EXTRACT_QUERY@ + "$$"@),
        contains_text(spec_ddl_text(spec_log_stats_view_definition()), "$$"@ + COUNT_SRC_QUERY@ + "$$"@),
        contains_text(spec_ddl_text(spec_log_stats_view_definition()), "$$"@ + MERGE_QUERY@ + "$$"@),
        contains_text(spec_ddl_text(spec_log_stats_view_definition()), "update_group = 3000"@),
        contains_text(spec_ddl_text(spec_log_stats_view_definition()), "time_column = 'time_bin'"@),
        contains_text(spec_ddl_text(spec_log_stats_view_definition()), "merge_sort_order = 'time_bin, process_id, level, target'"@),
{
    let d = spec_log_stats_view_definition();
    let q1 = "$$"@ + EXTRACT_QUERY@ + "$$"@;
    let q2 = "$$"@ + COUNT_SRC_QUERY@ + "$$"@;
    let q3 = "$$"@ + MERGE_QUERY@ + "$$"@;
    let p0 = "CREATE MATERIALIZED VIEW log_stats WITH (\n  extract_query = "@;
    let p1 = ",\n  count_src_query = "@;
    let p2 = ",\n  merge_partitions_query = "@;
    let tail = ",\n  update_group = 3000,\n  time_column = 'time_bin',\n  source_partition_delta = '1 day',\n  merge_partition_delta = '1 day',\n  merge_sort_order = 'time_bin, process_id, level, target'\n)"@;
    let s = spec_ddl_text(d);
    lemma_log_stats_ddl_text(p0, p1, p2, tail);
    assert(s =~= p0 + q1 + p1 + q2 + p2 + q3 + tail);
    assert(s.subrange(0, "CREATE MATERIALIZED VIEW log_stats WITH ("@.len() as int) =~= "CREATE MATERIALIZED VIEW log_stats WITH ("@
        && "CREATE MATERIALIZED VIEW log_stats WITH ("@.len() <= p0.len()) by {
        reveal_strlit("CREATE MATERIALIZED VIEW log_stats WITH (");
        reveal_strlit("CREATE MATERIALIZED VIEW log_stats WITH (\n  extract_query = ");
    }
    assert(s.subrange(s.len() - 1, s.len() as int) =~= ")"@ && ")"@.len() == 1 && tail.len() >= 1) by {
        reveal_strlit(")");
        reveal_strlit(",\n  update_group = 3000,\n  time_column = 'time_bin',\n  source_partition_delta = '1 day',\n  merge_partition_delta = '1 day',\n  merge_sort_order = 'time_bin, process_id, level, target'\n)");
    }
    assert(s =~= p0 + q1 + (p1 + q2 + p2 + q3 + tail));
    lemma_contains_middle(p0, q1, p1 + q2 + p2 + q3 + tail);
    assert(s =~= (p0 + q1 + p1) + q2 + (p2 + q3 + tail));
    lemma_contains_middle(p0 + q1 + p1, q2, p2 + q3 + tail);
    assert(s =~= (p0 + q1 + p1 + q2 + p2) + q3 + tail);
    lemma_contains_middle(p0 + q1 + p1 + q2 + p2, q3, tail);
    let base = p0 + q1 + p1 + q2 + p2 + q3;
    assert(s =~= base + tail);
    let t1 = "update_group = 3000"@;
    let t2 = "time_column = 'time_bin'"@;
    let t3 = "merge_sort_order = 'time_bin, process_id, level, target'"@;
    assert(tail.subrange(4, 4int + t1.len()) =~= t1 && tail.subrange(27, 27int + t2.len()) =~= t2 && tail.subrange(126, 126int + t3.len()) =~= t3 && t1.len() == 19 && t2.len() == 24 && t3.len() == 56 && tail.len() == 184) by {
        reveal_strlit("update_group = 3000");
        reveal_strlit("time_column = 'time_bin'");
        reveal_strlit("merge_sort_order = 'time_bin, process_id, level, target'");
        reveal_strlit(",\n  update_group = 3000,\n  time_column = 'time_bin',\n  source_partition_delta = '1 day',\n  merge_partition_delta = '1 day',\n  merge_sort_order = 'time_bin, process_id, level, target'\n)");
    }
    assert(s.subrange(base.len() + 4int, base.len() + 4int + t1.len()) =~= t1);
    assert(s.subrange(base.len() + 27int, base.len() + 27int + t2.len()) =~= t2);
    assert(s.subrange(base.len() + 126int, base.len() + 126int + t3.len()) =~= t3);
}

proof fn lemma_sort_order_text()
    ensures
        spec_join(seq!["time_bin"@, "process_id"@, "level"@, "target"@], ", "@) == "time_bin, process_id, level, target"@,
{
    reveal_strlit("time_bin");
    reveal_strlit("process_id");
    reveal_strlit("level");
    reveal_strlit("target");
    reveal_strlit(", ");
    reveal_strlit("time_bin, process_id, level, target");
    let cols = seq!["time_bin"@, "process_id"@, "level"@, "target"@];
    let c1 = seq!["time_bin"@];
    let c2 = seq!["time_bin"@, "process_id"@];
    let c3 = seq!["time_bin"@, "process_id"@, "level"@];
    assert(c2.drop_last() =~= c1);
    assert(c3.drop_last() =~= c2);
    assert(cols.drop_last() =~= c3);
    assert(spec_join(c1, ", "@) == "time_bin"@);
    assert(spec_join(c2, ", "@) == "time_bin"@ + ", "@ + "process_id"@);
    assert(spec_join(c3, ", "@) == "time_bin"@ + ", "@ + "process_id"@ + ", "@ + "level"@);
    assert(spec_join(cols, ", "@) == "time_bin"@ + ", "@ + "process_id"@ + ", "@ + "level"@ + ", "@ + "target"@);
    assert(spec_join(cols, ", "@) =~= "time_bin, process_id, level, target"@);
}

proof fn lemma_log_stats_ddl_text(p0: Seq<char>, p1: Seq<char>, p2: Seq<char>, tail: Seq<char>)
    requires
        p0 == "CREATE MATERIALIZED VIEW log_stats WITH (\n  extract_query = "@,
        p1 == ",\n  count_src_query = "@,
        p2 == ",\n  merge_partitions_query = "@,
        tail == ",\n  update_group = 3000,\n  time_column = 'time_bin',\n  source_partition_delta = '1 day',\n  merge_partition_delta = '1 day',\n  merge_sort_order = 'time_bin, process_id, level, target'\n)"@,
    ensures
        spec_ddl_text(spec_log_stats_view_definition()) == p0 + ("$$"@ + EXTRACT_QUERY@ + "$$"@) + p1 + ("$$"@ + COUNT_SRC_QUERY@ + "$$"@) + p2
            + ("$$"@ + MERGE_QUERY@ + "$$"@) + tail,
{
    let s = spec_ddl_text(spec_log_stats_view_definition());
    let dd = "$$"@;
    lemma_sort_order_text();
    assert(spec_decimal(3000) =~= "3000"@) by {
        reveal_strlit("3000");
        reveal_with_fuel(spec_decimal_nat, 5);
    }
    let x0 = "CREATE MATERIALIZED VIEW "@ + "log_stats"@ + " WITH (\n  extract_query = $$"@;
    assert(x0 =~= p0 + dd) by {
        reveal_strlit("$$");
        reveal_strlit("CREATE MATERIALIZED VIEW ");
        reveal_strlit("log_stats");
        reveal_strlit(" WITH (\n  extract_query = $$");
        reveal_strlit("CREATE MATERIALIZED VIEW log_stats WITH (\n  extract_query = ");
    }
    assert("$$,\n  count_src_query = $$"@ =~= dd + p1 + dd) by {
        reveal_strlit("$$");
        reveal_strlit("$$,\n  count_src_query = $$");
        reveal_strlit(",\n  count_src_query = ");
    }
    assert("$$,\n  merge_partitions_query = $$"@ =~= dd + p2 + dd) by {
        reveal_strlit("$$");
        reveal_strlit("$$,\n  merge_partitions_query = $$");
        reveal_strlit(",\n  merge_partitions_query = ");
    }
    let x1 = x0 + EXTRACT_QUERY@ + "$$,\n  count_src_query = $$"@;
    assert(x1 =~= p0 + ("$$"@ + EXTRACT_QUERY@ + "$$"@) + p1 + dd);
    let x2 = x1 + COUNT_SRC_QUERY@ + "$$,\n  merge_partitions_query = $$"@;
    assert(x2 =~= p0 + ("$$"@ + EXTRACT_QUERY@ + "$$"@) + p1 + ("$$"@ + COUNT_SRC_QUERY@ + "$$"@) + p2 + dd);
    let r = "$$,\n  update_group = "@ + "3000"@ + ",\n  time_column = '"@ + "time_bin"@ + "',\n  source_partition_delta = '"@
        + "1 day"@ + "',\n  merge_partition_delta = '"@ + "1 day"@ + "',\n  merge_sort_order = '"@
        + "time_bin, process_id, level, target"@ + "'\n)"@;
    assert(r =~= dd + tail) by {
        reveal_strlit("$$");
        reveal_strlit("3000");
        reveal_strlit("time_bin, process_id, level, target");
        reveal_strlit("$$,\n  update_group = ");
        reveal_strlit(",\n  time_column = '");
        reveal_strlit("time_bin");
        reveal_strlit("',\n  source_partition_delta = '");
        reveal_strlit("1 day");
        reveal_strlit("',\n  merge_partition_delta = '");
        reveal_strlit("',\n  merge_sort_order = '");
        reveal_strlit("'\n)");
        reveal_strlit(",\n  update_group = 3000,\n  time_column = 'time_bin',\n  source_partition_delta = '1 day',\n  merge_partition_delta = '1 day',\n  merge_sort_order = 'time_bin, process_id, level, target'\n)");
    }
    assert(s =~= x2 + MERGE_QUERY@ + r);
}


/// Whether a text holds no `$`.
#[verifier::opaque]
pub open spec fn no_dollar(t: Seq<char>) -> bool {
    forall|i: int| 0 <= i < t.len() ==> t[i] != '$'
}

proof fn lemma_no_dollar_at(t: Seq<char>, i: int)
    requires
        no_dollar(t),
        0 <= i < t.len(),
    ensures
        t[i] != '$',
{
    reveal(no_dollar);
}

proof fn lemma_queries_hold_no_dollar()
    ensures
        no_dollar(EXTRACT_QUERY@),
        no_dollar(COUNT_SRC_QUERY@),
        no_dollar(MERGE_QUERY@),
        EXTRACT_QUERY@.len() > 0,
        COUNT_SRC_QUERY@.len() > 0,
        MERGE_QUERY@.len() > 0,
{
    reveal(no_dollar);
    assert(no_dollar(EXTRACT_QUERY@) && EXTRACT_QUERY@.len() > 0) by {
        reveal_strlit(r#"
        SELECT date_bin('1 minute', time) as time_bin,
               process_id,
               level,
               target,
               count(*) as count,
               arrow_cast(max(audience), 'Dictionary(Int32, Utf8)') as audience
        FROM log_entries
        WHERE insert_time >= '{begin}'
        AND insert_time < '{end}'
        GROUP BY process_id, level, target, time_bin, audience
        "#);
    }
    assert(no_dollar(COUNT_SRC_QUERY@) && COUNT_SRC_QUERY@.len() > 0) by {
        reveal_strlit(r#"
        SELECT sum(nb_objects) as count
        FROM blocks
        WHERE array_has("streams.tags", 'log')
        AND insert_time >= '{begin}'
        AND insert_time < '{end}'
        "#);
    }
    assert(no_dollar(MERGE_QUERY@) && MERGE_QUERY@.len() > 0) by {
        reveal_strlit(r#"
        SELECT time_bin,
               process_id,
               level,
               target,
               sum(count) as count,
               arrow_cast(max(audience), 'Dictionary(Int32, Utf8)') as audience
        FROM {source}
        GROUP BY process_id, level, target, time_bin, audience
        "#);
    }
}

proof fn lemma_settings_hold_no_dollar()
    ensures
        no_dollar("CREATE MATERIALIZED VIEW log_stats WITH (\n  extract_query = "@),
        no_dollar(",\n  count_src_query = "@),
        no_dollar(",\n  merge_partitions_query = "@),
        ",\n  count_src_query = "@.len() > 0,
        ",\n  merge_partitions_query = "@.len() > 0,
        no_dollar(",\n  update_group = 3000,\n  time_column = 'time_bin',\n  source_partition_delta = '1 day',\n  merge_partition_delta = '1 day',\n  merge_sort_order = 'time_bin, process_id, level, target'\n)"@),
{
    reveal(no_dollar);
    assert(no_dollar("CREATE MATERIALIZED VIEW log_stats WITH (\n  extract_query = "@)) by {
        reveal_strlit("CREATE MATERIALIZED VIEW log_stats WITH (\n  extract_query = ");
    }
    assert(no_dollar(",\n  count_src_query = "@) && ",\n  count_src_query = "@.len() > 0) by {
        reveal_strlit(",\n  count_src_query = ");
    }
    assert(no_dollar(",\n  merge_partitions_query = "@) && ",\n  merge_partitions_query = "@.len() > 0) by {
        reveal_strlit(",\n  merge_partitions_query = ");
    }
    assert(no_dollar(",\n  update_group = 3000,\n  time_column = 'time_bin',\n  source_partition_delta = '1 day',\n  merge_partition_delta = '1 day',\n  merge_sort_order = 'time_bin, process_id, level, target'\n)"@)) by {
        reveal_strlit(",\n  update_group = 3000,\n  time_column = 'time_bin',\n  source_partition_delta = '1 day',\n  merge_partition_delta = '1 day',\n  merge_sort_order = 'time_bin, process_id, level, target'\n)");
    }
}

proof fn lemma_quoted_dollars(query: Seq<char>)
    requires
        no_dollar(query),
    ensures
        ("$$"@ + query + "$$"@).len() == query.len() + 4,
        ("$$"@ + query + "$$"@).subrange(0, 2) == "$$"@,
        ("$$"@ + query + "$$"@).subrange(query.len() + 2int, query.len() + 4int) == "$$"@,
        forall|j: int| 0 <= j < query.len() + 4 && #[trigger] ("$$"@ + query + "$$"@)[j] == '$' ==> j < 2 || j >= query.len() + 2,
{
    reveal_strlit("$$");
    let q = "$$"@ + query + "$$"@;
    assert(q.subrange(0, 2) =~= "$$"@);
    assert(q.subrange(query.len() + 2int, query.len() + 4int) =~= "$$"@);
    assert forall|j: int| 0 <= j < query.len() + 4 && #[trigger] q[j] == '$' implies j < 2 || j >= query.len() + 2 by {
        if 2 <= j < query.len() + 2 {
            assert(q[j] == query[j - 2]);
            lemma_no_dollar_at(query, j - 2);
        }
    }
}

/// Where quote `k` (of six) starts in `p0 + $$e$$ + p1 + $$c$$ + p2 + $$m$$ + ...`: quotes come
/// before and after each of the three quoted texts.
pub open spec fn quote_start(p0: Seq<char>, e: Seq<char>, p1: Seq<char>, c: Seq<char>, p2: Seq<char>, m: Seq<char>, k: int) -> int {
    let a = p0.len() as int;
    let b = a + 4 + e.len() + p1.len();
    let d = b + 4 + c.len() + p2.len();
    if k == 0 {
        a
    } else if k == 1 {
        a + 2 + e.len()
    } else if k == 2 {
        b
    } else if k == 3 {
        b + 2 + c.len()
    } else if k == 4 {
        d
    } else {
        d + 2 + m.len()
    }
}

/// Where quote `k` of the `log_stats` DDL text starts.
pub open spec fn log_stats_quote_start(k: int) -> int {
    quote_start("CREATE MATERIALIZED VIEW log_stats WITH (\n  extract_query = "@, EXTRACT_QUERY@, ",\n  count_src_query = "@, COUNT_SRC_QUERY@, ",\n  merge_partitions_query = "@, MERGE_QUERY@, k)
}

proof fn lemma_quote_positions(s: Seq<char>, p0: Seq<char>, e: Seq<char>, p1: Seq<char>, c: Seq<char>, p2: Seq<char>, m: Seq<char>, tail: Seq<char>)
    requires
        s == p0 + ("$$"@ + e + "$$"@) + p1 + ("$$"@ + c + "$$"@) + p2 + ("$$"@ + m + "$$"@) + tail,
        no_dollar(p0),
        no_dollar(e),
        no_dollar(p1),
        no_dollar(c),
        no_dollar(p2),
        no_dollar(m),
        no_dollar(tail),
    ensures
        0 <= quote_start(p0, e, p1, c, p2, m, 0),
        quote_start(p0, e, p1, c, p2, m, 5) + 2 <= s.len(),
        forall|k: int| 0 <= k < 6 ==> s.subrange(#[trigger] quote_start(p0, e, p1, c, p2, m, k), quote_start(p0, e, p1, c, p2, m, k) + 2) == "$$"@,
        forall|i: int| 0 <= i < s.len() && #[trigger] s[i] == '$'
            ==> exists|k: int| 0 <= k < 6 && (i == #[trigger] quote_start(p0, e, p1, c, p2, m, k) || i == quote_start(p0, e, p1, c, p2, m, k) + 1),
{
    let q1 = "$$"@ + e + "$$"@;
    let q2 = "$$"@ + c + "$$"@;
    let q3 = "$$"@ + m + "$$"@;
    lemma_quoted_dollars(e);
    lemma_quoted_dollars(c);
    lemma_quoted_dollars(m);
    let s1 = p0 + q1;
    let s2 = s1 + p1;
    let s3 = s2 + q2;
    let s4 = s3 + p2;
    let s5 = s4 + q3;
    assert(s == s5 + tail);
    let a = p0.len() as int;
    let b = s2.len() as int;
    let d = s4.len() as int;
    assert forall|k: int| 0 <= k < 6 implies s.subrange(#[trigger] quote_start(p0, e, p1, c, p2, m, k), quote_start(p0, e, p1, c, p2, m, k) + 2) == "$$"@ by {
        let t = quote_start(p0, e, p1, c, p2, m, k);
        if k == 0 {
            assert(s.subrange(t, t + 2) =~= q1.subrange(0, 2));
        } else if k == 1 {
            assert(s.subrange(t, t + 2) =~= q1.subrange(q1.len() - 2, q1.len() as int));
        } else if k == 2 {
            assert(s.subrange(t, t + 2) =~= q2.subrange(0, 2));
        } else if k == 3 {
            assert(s.subrange(t, t + 2) =~= q2.subrange(q2.len() - 2, q2.len() as int));
        } else if k == 4 {
            assert(s.subrange(t, t + 2) =~= q3.subrange(0, 2));
        } else {
            assert(s.subrange(t, t + 2) =~= q3.subrange(q3.len() - 2, q3.len() as int));
        }
    }
    assert forall|i: int| 0 <= i < s.len() && #[trigger] s[i] == '$'
        implies exists|k: int| 0 <= k < 6 && (i == #[trigger] quote_start(p0, e, p1, c, p2, m, k) || i == quote_start(p0, e, p1, c, p2, m, k) + 1) by {
        if i < a {
            assert(s[i] == p0[i]);
            lemma_no_dollar_at(p0, i);
        } else if i < s1.len() {
            assert(s[i] == q1[i - a]);
            if i < a + 2 {
                assert(i == quote_start(p0, e, p1, c, p2, m, 0) || i == quote_start(p0, e, p1, c, p2, m, 0) + 1);
            } else {
                assert(i == quote_start(p0, e, p1, c, p2, m, 1) || i == quote_start(p0, e, p1, c, p2, m, 1) + 1);
            }
        } else if i < b {
            assert(s[i] == p1[i - s1.len()]);
            lemma_no_dollar_at(p1, i - s1.len());
        } else if i < s3.len() {
            assert(s[i] == q2[i - b]);
            if i < b + 2 {
                assert(i == quote_start(p0, e, p1, c, p2, m, 2) || i == quote_start(p0, e, p1, c, p2, m, 2) + 1);
            } else {
                assert(i == quote_start(p0, e, p1, c, p2, m, 3) || i == quote_start(p0, e, p1, c, p2, m, 3) + 1);
            }
        } else if i < d {
            assert(s[i] == p2[i - s3.len()]);
            lemma_no_dollar_at(p2, i - s3.len());
        } else if i < s5.len() {
            assert(s[i] == q3[i - d]);
            if i < d + 2 {
                assert(i == quote_start(p0, e, p1, c, p2, m, 4) || i == quote_start(p0, e, p1, c, p2, m, 4) + 1);
            } else {
                assert(i == quote_start(p0, e, p1, c, p2, m, 5) || i == quote_start(p0, e, p1, c, p2, m, 5) + 1);
            }
        } else {
            assert(s[i] == tail[i - s5.len()]);
            lemma_no_dollar_at(tail, i - s5.len());
        }
    }
}

/// The `log_stats` DDL text holds exactly six `$$` quotes, around its three queries, and no other
/// `$`: the queries themselves hold none.
pub proof fn log_stats_ddl_dollar_quotes()
    ensures
        0 <= log_stats_quote_start(0),
        log_stats_quote_start(5) + 2 <= spec_ddl_text(spec_log_stats_view_definition()).len(),
        forall|k: int| 0 <= k < 6 ==> spec_ddl_text(spec_log_stats_view_definition()).subrange(
            #[trigger] log_stats_quote_start(k), log_stats_quote_start(k) + 2) == "$$"@,
        forall|i: int| 0 <= i < spec_ddl_text(spec_log_stats_view_definition()).len()
            && #[trigger] spec_ddl_text(spec_log_stats_view_definition())[i] == '$'
            ==> exists|k: int| 0 <= k < 6 && (i == #[trigger] log_stats_quote_start(k) || i == log_stats_quote_start(k) + 1),
{
    let p0 = "CREATE MATERIALIZED VIEW log_stats WITH (\n  extract_query = "@;
    let p1 = ",\n  count_src_query = "@;
    let p2 = ",\n  merge_partitions_query = "@;
    let tail = ",\n  update_group = 3000,\n  time_column = 'time_bin',\n  source_partition_delta = '1 day',\n  merge_partition_delta = '1 day',\n  merge_sort_order = 'time_bin, process_id, level, target'\n)"@;
    lemma_log_stats_ddl_text(p0, p1, p2, tail);
    lemma_queries_hold_no_dollar();
    lemma_settings_hold_no_dollar();
    let s = spec_ddl_text(spec_log_stats_view_definition());
    lemma_quote_positions(s, p0, EXTRACT_QUERY@, p1, COUNT_SRC_QUERY@, p2, MERGE_QUERY@, tail);
    assert forall|i: int| 0 <= i < s.len() && #[trigger] s[i] == '$'
        implies exists|k: int| 0 <= k < 6 && (i == #[trigger] log_stats_quote_start(k) || i == log_stats_quote_start(k) + 1) by {
        let k = choose|k: int| 0 <= k < 6 && (i == #[trigger] quote_start(p0, EXTRACT_QUERY@, p1, COUNT_SRC_QUERY@, p2, MERGE_QUERY@, k)
            || i == quote_start(p0, EXTRACT_QUERY@, p1, COUNT_SRC_QUERY@, p2, MERGE_QUERY@, k) + 1);
        assert(log_stats_quote_start(k) == quote_start(p0, EXTRACT_QUERY@, p1, COUNT_SRC_QUERY@, p2, MERGE_QUERY@, k));
    }
}

/// The starts of the occurrences of `t` in `s`.
pub open spec fn occurrence_starts(s: Seq<char>, t: Seq<char>) -> Set<int> {
    Set::new(|i: int| 0 <= i && i + t.len() <= s.len() && s.subrange(i, i + t.len()) == t)
}

/// The `log_stats` DDL text holds `$$` exactly six times: the occurrences start at the six quote
/// starts, which are distinct and at least two characters apart, so none overlaps another.
pub proof fn log_stats_ddl_quote_count()
    ensures
        occurrence_starts(spec_ddl_text(spec_log_stats_view_definition()), "$$"@) == set![
            log_stats_quote_start(0), log_stats_quote_start(1), log_stats_quote_start(2),
            log_stats_quote_start(3), log_stats_quote_start(4), log_stats_quote_start(5)],
        set![log_stats_quote_start(0), log_stats_quote_start(1), log_stats_quote_start(2),
            log_stats_quote_start(3), log_stats_quote_start(4), log_stats_quote_start(5)].len() == 6,
        forall|k: int| 0 <= k < 5 ==> #[trigger] log_stats_quote_start(k) + 2 < log_stats_quote_start(k + 1),
{
    let s = spec_ddl_text(spec_log_stats_view_definition());
    log_stats_ddl_dollar_quotes();
    lemma_queries_hold_no_dollar();
    lemma_settings_hold_no_dollar();
    assert("$$"@.len() == 2 && "$$"@[0] == '$' && "$$"@[1] == '$') by {
        reveal_strlit("$$");
    }
    let q0 = log_stats_quote_start(0);
    let q1 = log_stats_quote_start(1);
    let q2 = log_stats_quote_start(2);
    let q3 = log_stats_quote_start(3);
    let q4 = log_stats_quote_start(4);
    let q5 = log_stats_quote_start(5);
    assert(q0 + 2 < q1 && q1 + 2 < q2 && q2 + 2 < q3 && q3 + 2 < q4 && q4 + 2 < q5);
    assert forall|k: int| 0 <= k < 5 implies #[trigger] log_stats_quote_start(k) + 2 < log_stats_quote_start(k + 1) by {
        if k == 0 {} else if k == 1 {} else if k == 2 {} else if k == 3 {} else {}
    }
    let six = set![q0, q1, q2, q3, q4, q5];
    let occ = occurrence_starts(s, "$$"@);
    assert forall|i: int| occ.contains(i) <==> six.contains(i) by {
        if occ.contains(i) {
            let w = s.subrange(i, i + 2);
            assert(w == "$$"@);
            assert(s[i] == w[0] && s[i + 1] == w[1]);
            let k = choose|k: int| 0 <= k < 6 && (i == #[trigger] log_stats_quote_start(k) || i == log_stats_quote_start(k) + 1);
            let j = choose|j: int| 0 <= j < 6 && (i + 1 == #[trigger] log_stats_quote_start(j) || i + 1 == log_stats_quote_start(j) + 1);
            assert(log_stats_quote_start(k) == q0 || log_stats_quote_start(k) == q1 || log_stats_quote_start(k) == q2
                || log_stats_quote_start(k) == q3 || log_stats_quote_start(k) == q4 || log_stats_quote_start(k) == q5);
            assert(log_stats_quote_start(j) == q0 || log_stats_quote_start(j) == q1 || log_stats_quote_start(j) == q2
                || log_stats_quote_start(j) == q3 || log_stats_quote_start(j) == q4 || log_stats_quote_start(j) == q5);
            assert(i == log_stats_quote_start(k));
        }
        if six.contains(i) {
            let k = if i == q0 { 0int } else if i == q1 { 1int } else if i == q2 { 2int } else if i == q3 { 3int } else if i == q4 { 4int } else { 5int };
            assert(i == log_stats_quote_start(k));
            assert(s.subrange(log_stats_quote_start(k), log_stats_quote_start(k) + 2) == "$$"@);
        }
    }
    assert(occ =~= six);
    assert(set![q0].len() == 1);
    assert(set![q0, q1].len() == 2);
    assert(set![q0, q1, q2].len() == 3);
    assert(set![q0, q1, q2, q3].len() == 4);
    assert(set![q0, q1, q2, q3, q4].len() == 5);
}

} // verus!
