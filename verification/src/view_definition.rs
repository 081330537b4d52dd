use vstd::prelude::*;
use crate::partition::strings_view;

verus! {

/// The options of a SQL-defined materialized view.
pub struct ViewOptions {
    pub min_time_column: String,
    pub max_time_column: String,
    pub source_partition_delta: String,
    pub merge_partition_delta: String,
    pub merge_sort_order: Option<Vec<String>>,
}

pub struct ViewOptionsView {
    pub min_time_column: Seq<char>,
    pub max_time_column: Seq<char>,
    pub source_partition_delta: Seq<char>,
    pub merge_partition_delta: Seq<char>,
    pub merge_sort_order: Option<Seq<Seq<char>>>,
}

impl View for ViewOptions {
    type V = ViewOptionsView;

    open spec fn view(&self) -> ViewOptionsView {
        ViewOptionsView {
            min_time_column: self.min_time_column@,
            max_time_column: self.max_time_column@,
            source_partition_delta: self.source_partition_delta@,
            merge_partition_delta: self.merge_partition_delta@,
            merge_sort_order: match self.merge_sort_order {
                Some(cols) => Some(strings_view(cols@)),
                None => None,
            },
        }
    }
}

/// A SQL-defined materialized view: its queries, update group and options.
pub struct ViewDefinition {
    pub view_set_name: String,
    pub extract_query: String,
    pub count_src_query: String,
    pub merge_partitions_query: String,
    pub update_group: i32,
    pub options: ViewOptions,
}

pub struct ViewDefinitionView {
    pub view_set_name: Seq<char>,
    pub extract_query: Seq<char>,
    pub count_src_query: Seq<char>,
    pub merge_partitions_query: Seq<char>,
    pub update_group: i32,
    pub options: ViewOptionsView,
}

impl View for ViewDefinition {
    type V = ViewDefinitionView;

    open spec fn view(&self) -> ViewDefinitionView {
        ViewDefinitionView {
            view_set_name: self.view_set_name@,
            extract_query: self.extract_query@,
            count_src_query: self.count_src_query@,
            merge_partitions_query: self.merge_partitions_query@,
            update_group: self.update_group,
            options: self.options@,
        }
    }
}

/// The ASCII digit for `d` (0..=9).
pub open spec fn digit_char(d: int) -> char {
    (d + 48) as char
}

/// The decimal digits of a natural number, most significant first, without leading zeros.
pub open spec fn spec_decimal_nat(n: nat) -> Seq<char>
    decreases n,
{
    if n < 10 {
        seq![digit_char(n as int)]
    } else {
        spec_decimal_nat(n / 10).push(digit_char((n % 10) as int))
    }
}

/// The decimal text of an integer, with a leading `-` when negative.
pub open spec fn spec_decimal(n: int) -> Seq<char> {
    if n < 0 {
        seq!['-'] + spec_decimal_nat((-n) as nat)
    } else {
        spec_decimal_nat(n as nat)
    }
}

/// The text of one decimal digit.
fn digit_text(d: u32) -> (r: &'static str)
    requires
        d < 10,
    ensures
        r@ == seq![digit_char(d as int)],
{
    proof {
        reveal_strlit("0");
        reveal_strlit("1");
        reveal_strlit("2");
        reveal_strlit("3");
        reveal_strlit("4");
        reveal_strlit("5");
        reveal_strlit("6");
        reveal_strlit("7");
        reveal_strlit("8");
        reveal_strlit("9");
    }
    match d {
        0 => "0",
        1 => "1",
        2 => "2",
        3 => "3",
        4 => "4",
        5 => "5",
        6 => "6",
        7 => "7",
        8 => "8",
        _ => "9",
    }
}

/// Appends the decimal digits of `n`.
fn append_decimal_nat(s: &mut String, n: u64)
    ensures
        final(s)@ == old(s)@ + spec_decimal_nat(n as nat),
    decreases n,
{
    if n >= 10 {
        append_decimal_nat(s, n / 10);
    }
    let d = digit_text((n % 10) as u32);
    s.append(d);
    proof {
        if n >= 10 {
            assert(old(s)@ + spec_decimal_nat(n as nat) =~= old(s)@ + spec_decimal_nat((n / 10) as nat) + d@);
        } else {
            assert(old(s)@ + spec_decimal_nat(n as nat) =~= old(s)@ + d@);
        }
    }
}

/// Appends the decimal text of `n` (Rust's `{}` formatting of an `i32`).
pub fn append_decimal(s: &mut String, n: i32)
    ensures
        final(s)@ == old(s)@ + spec_decimal(n as int),
{
    if n < 0 {
        proof {
            reveal_strlit("-");
        }
        s.append("-");
        let m: i64 = n as i64;
        let magnitude: u64 = (-m) as u64;
        append_decimal_nat(s, magnitude);
        assert(final(s)@ =~= old(s)@ + spec_decimal(n as int));
    } else {
        append_decimal_nat(s, n as u64);
    }
}

/// Appends the decimal text of `n` (Rust's `{}` formatting of an `i64`).
pub fn append_decimal_i64(s: &mut String, n: i64)
    ensures
        final(s)@ == old(s)@ + spec_decimal(n as int),
{
    if n < 0 {
        proof {
            reveal_strlit("-");
        }
        s.append("-");
        let magnitude: u64 = if n == i64::MIN { 9_223_372_036_854_775_808u64 } else { (-n) as u64 };
        append_decimal_nat(s, magnitude);
        assert(final(s)@ =~= old(s)@ + spec_decimal(n as int));
    } else {
        append_decimal_nat(s, n as u64);
    }
}

/// The texts of `cols` separated by `sep` (`[String]::join`).
pub open spec fn spec_join(cols: Seq<Seq<char>>, sep: Seq<char>) -> Seq<char>
    decreases cols.len(),
{
    if cols.len() == 0 {
        Seq::empty()
    } else if cols.len() == 1 {
        cols[0]
    } else {
        spec_join(cols.drop_last(), sep) + sep + cols.last()
    }
}

/// Appends `cols` joined by `sep`.
pub fn append_joined(s: &mut String, cols: &Vec<String>, sep: &str)
    ensures
        final(s)@ == old(s)@ + spec_join(strings_view(cols@), sep@),
{
    let ghost start = s@;
    let ghost all = strings_view(cols@);
    let mut i: usize = 0;
    while i < cols.len()
        invariant
            i <= cols@.len(),
            all == strings_view(cols@),
            s@ == start + spec_join(all.take(i as int), sep@),
        decreases cols@.len() - i,
    {
        let ghost before = s@;
        if i > 0 {
            s.append(sep);
        }
        s.append(cols[i].as_str());
        proof {
            let t = all.take(i + 1);
            assert(t.drop_last() =~= all.take(i as int));
            assert(t.last() == cols@[i as int]@);
            if i == 0 {
                assert(t.len() == 1);
                assert(spec_join(all.take(0), sep@) =~= Seq::<char>::empty());
                assert(s@ =~= start + spec_join(t, sep@));
            } else {
                assert(s@ =~= start + spec_join(t, sep@));
            }
        }
        i = i + 1;
    }
    assert(all.take(cols@.len() as int) =~= all);
}

/// The `CREATE MATERIALIZED VIEW ... WITH (...)` text equivalent to `def`, each query wrapped in
/// `$$...$$`, `merge_sort_order` given as its columns joined by `", "` (empty when absent).
pub open spec fn spec_ddl_text(def: ViewDefinitionView) -> Seq<char> {
    "CREATE MATERIALIZED VIEW "@ + def.view_set_name + " WITH (\n  extract_query = $$"@
        + def.extract_query + "$$,\n  count_src_query = $$"@ + def.count_src_query
        + "$$,\n  merge_partitions_query = $$"@ + def.merge_partitions_query
        + "$$,\n  update_group = "@ + spec_decimal(def.update_group as int)
        + ",\n  time_column = '"@ + def.options.min_time_column
        + "',\n  source_partition_delta = '"@ + def.options.source_partition_delta
        + "',\n  merge_partition_delta = '"@ + def.options.merge_partition_delta
        + "',\n  merge_sort_order = '"@ + match def.options.merge_sort_order {
            Some(cols) => spec_join(cols, ", "@),
            None => Seq::empty(),
        } + "'\n)"@
}

/// Assembles the DDL text of a view definition (see `spec_ddl_text`).
pub fn ddl_text(def: &ViewDefinition) -> (r: String)
    ensures
        r@ == spec_ddl_text(def@),
{
    let mut s = String::from_str("CREATE MATERIALIZED VIEW ");
    s.append(def.view_set_name.as_str());
    s.append(" WITH (\n  extract_query = $$");
    s.append(def.extract_query.as_str());
    s.append("$$,\n  count_src_query = $$");
    s.append(def.count_src_query.as_str());
    s.append("$$,\n  merge_partitions_query = $$");
    s.append(def.merge_partitions_query.as_str());
    s.append("$$,\n  update_group = ");
    append_decimal(&mut s, def.update_group);
    s.append(",\n  time_column = '");
    s.append(def.options.min_time_column.as_str());
    s.append("',\n  source_partition_delta = '");
    s.append(def.options.source_partition_delta.as_str());
    s.append("',\n  merge_partition_delta = '");
    s.append(def.options.merge_partition_delta.as_str());
    s.append("',\n  merge_sort_order = '");
    let ghost before_cols = s@;
    match &def.options.merge_sort_order {
        Some(cols) => append_joined(&mut s, cols, ", "),
        None => {},
    }
    s.append("'\n)");
    assert(s@ =~= spec_ddl_text(def@));
    s
}

} // verus!
