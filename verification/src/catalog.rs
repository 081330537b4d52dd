use vstd::prelude::*;
use crate::bytes::bytes_copy;
use crate::error::LakehouseError;
use crate::partition::strings_contain;

verus! {

/// The schema a view (or a view maker) reports: its set's name, the hash of its current file
/// schema, and that schema's text.
pub struct ViewSchemaInfo {
    pub view_set_name: String,
    pub file_schema_hash: Vec<u8>,
    pub file_schema: String,
}

pub struct ViewSchemaInfoView {
    pub view_set_name: Seq<char>,
    pub file_schema_hash: Seq<u8>,
    pub file_schema: Seq<char>,
}

impl View for ViewSchemaInfo {
    type V = ViewSchemaInfoView;

    open spec fn view(&self) -> ViewSchemaInfoView {
        ViewSchemaInfoView {
            view_set_name: self.view_set_name@,
            file_schema_hash: self.file_schema_hash@,
            file_schema: self.file_schema@,
        }
    }
}

/// Information about a view set's current schema.
pub struct ViewSetInfo {
    pub view_set_name: String,
    pub current_schema_hash: Vec<u8>,
    pub schema: String,
    pub has_view_maker: bool,
    pub global_instance_available: bool,
}

pub struct ViewSetInfoView {
    pub view_set_name: Seq<char>,
    pub current_schema_hash: Seq<u8>,
    pub schema: Seq<char>,
    pub has_view_maker: bool,
    pub global_instance_available: bool,
}

impl View for ViewSetInfo {
    type V = ViewSetInfoView;

    open spec fn view(&self) -> ViewSetInfoView {
        ViewSetInfoView {
            view_set_name: self.view_set_name@,
            current_schema_hash: self.current_schema_hash@,
            schema: self.schema@,
            has_view_maker: self.has_view_maker,
            global_instance_available: self.global_instance_available,
        }
    }
}

pub open spec fn schema_infos_view(s: Seq<ViewSchemaInfo>) -> Seq<ViewSchemaInfoView> {
    s.map_values(|x: ViewSchemaInfo| x@)
}

pub open spec fn set_infos_view(s: Seq<ViewSetInfo>) -> Seq<ViewSetInfoView> {
    s.map_values(|x: ViewSetInfo| x@)
}

/// The view set names of a list of schemas.
pub open spec fn set_names(s: Seq<ViewSchemaInfoView>) -> Seq<Seq<char>> {
    s.map_values(|x: ViewSchemaInfoView| x.view_set_name)
}

pub open spec fn info_of(v: ViewSchemaInfoView, has_view_maker: bool, global_instance_available: bool) -> ViewSetInfoView {
    ViewSetInfoView {
        view_set_name: v.view_set_name,
        current_schema_hash: v.file_schema_hash,
        schema: v.file_schema,
        has_view_maker,
        global_instance_available,
    }
}

/// One entry per view set of the global views, the first global view of a set giving its schema,
/// in order; a set has a view maker when its name is among `maker_names`.
pub open spec fn infos_from_globals(g: Seq<ViewSchemaInfoView>, maker_names: Seq<Seq<char>>) -> Seq<ViewSetInfoView>
    decreases g.len(),
{
    if g.len() == 0 {
        Seq::empty()
    } else {
        let prev = infos_from_globals(g.drop_last(), maker_names);
        let v = g.last();
        if set_names(g.drop_last()).contains(v.view_set_name) {
            prev
        } else {
            prev.push(info_of(v, maker_names.contains(v.view_set_name), true))
        }
    }
}

/// One entry per view maker whose set has no global view, in order.
pub open spec fn infos_from_makers(m: Seq<ViewSchemaInfoView>, global_names: Seq<Seq<char>>) -> Seq<ViewSetInfoView>
    decreases m.len(),
{
    if m.len() == 0 {
        Seq::empty()
    } else {
        let prev = infos_from_makers(m.drop_last(), global_names);
        let v = m.last();
        if global_names.contains(v.view_set_name) {
            prev
        } else {
            prev.push(info_of(v, true, false))
        }
    }
}

/// Every view set, first those with a global view, then those that only have a view maker.
pub open spec fn spec_list_view_sets(g: Seq<ViewSchemaInfoView>, m: Seq<ViewSchemaInfoView>) -> Seq<ViewSetInfoView> {
    infos_from_globals(g, set_names(m)) + infos_from_makers(m, set_names(g))
}

/// The view set names of a list of view set infos.
pub open spec fn info_names(s: Seq<ViewSetInfoView>) -> Seq<Seq<char>> {
    s.map_values(|x: ViewSetInfoView| x.view_set_name)
}

proof fn lemma_globals_distinct(g: Seq<ViewSchemaInfoView>, mn: Seq<Seq<char>>)
    ensures
        info_names(infos_from_globals(g, mn)).no_duplicates(),
        forall|k: int| 0 <= k < infos_from_globals(g, mn).len() ==> set_names(g).contains(#[trigger] info_names(infos_from_globals(g, mn))[k]),
    decreases g.len(),
{
    if g.len() > 0 {
        let d = g.drop_last();
        lemma_globals_distinct(d, mn);
        assert(set_names(g) =~= set_names(d).push(g.last().view_set_name));
        let prev = infos_from_globals(d, mn);
        let cur = infos_from_globals(g, mn);
        assert forall|k: int| 0 <= k < prev.len() implies set_names(g).contains(#[trigger] info_names(prev)[k]) by {
            let w = choose|w: int| 0 <= w < set_names(d).len() && set_names(d)[w] == info_names(prev)[k];
            assert(set_names(g)[w] == info_names(prev)[k]);
        }
        if !set_names(d).contains(g.last().view_set_name) {
            let x = info_of(g.last(), mn.contains(g.last().view_set_name), true);
            assert(info_names(cur) =~= info_names(prev).push(x.view_set_name));
            assert forall|k: int| 0 <= k < prev.len() implies #[trigger] info_names(prev)[k] != x.view_set_name by {
                assert(set_names(d).contains(info_names(prev)[k]));
            }
            assert(set_names(g)[d.len() as int] == x.view_set_name);
        }
    }
}

proof fn lemma_makers_distinct(m: Seq<ViewSchemaInfoView>, gn: Seq<Seq<char>>)
    requires
        set_names(m).no_duplicates(),
    ensures
        info_names(infos_from_makers(m, gn)).no_duplicates(),
        forall|k: int| 0 <= k < infos_from_makers(m, gn).len() ==> {
            &&& set_names(m).contains(#[trigger] info_names(infos_from_makers(m, gn))[k])
            &&& !gn.contains(info_names(infos_from_makers(m, gn))[k])
        },
    decreases m.len(),
{
    if m.len() > 0 {
        let d = m.drop_last();
        assert(set_names(m) =~= set_names(d).push(m.last().view_set_name));
        assert(set_names(d).no_duplicates()) by {
            assert forall|i: int, j: int| 0 <= i < j < set_names(d).len() implies set_names(d)[i] != set_names(d)[j] by {
                assert(set_names(m)[i] == set_names(d)[i]);
                assert(set_names(m)[j] == set_names(d)[j]);
            }
        }
        lemma_makers_distinct(d, gn);
        let prev = infos_from_makers(d, gn);
        let cur = infos_from_makers(m, gn);
        assert forall|k: int| 0 <= k < prev.len() implies set_names(m).contains(#[trigger] info_names(prev)[k]) && !gn.contains(info_names(prev)[k]) by {
            let w = choose|w: int| 0 <= w < set_names(d).len() && set_names(d)[w] == info_names(prev)[k];
            assert(set_names(m)[w] == info_names(prev)[k]);
        }
        if !gn.contains(m.last().view_set_name) {
            let x = info_of(m.last(), true, false);
            assert(info_names(cur) =~= info_names(prev).push(x.view_set_name));
            assert forall|k: int| 0 <= k < prev.len() implies #[trigger] info_names(prev)[k] != x.view_set_name by {
                let w = choose|w: int| 0 <= w < set_names(d).len() && set_names(d)[w] == info_names(prev)[k];
                assert(set_names(m)[w] == info_names(prev)[k]);
                assert(set_names(m)[d.len() as int] == x.view_set_name);
            }
            assert(set_names(m)[d.len() as int] == x.view_set_name);
        }
    }
}

/// No two entries of the listing share a view set name, when the view makers' names are distinct.
pub proof fn view_sets_listed_once(g: Seq<ViewSchemaInfoView>, m: Seq<ViewSchemaInfoView>)
    requires
        set_names(m).no_duplicates(),
    ensures
        info_names(spec_list_view_sets(g, m)).no_duplicates(),
{
    let a = infos_from_globals(g, set_names(m));
    let b = infos_from_makers(m, set_names(g));
    lemma_globals_distinct(g, set_names(m));
    lemma_makers_distinct(m, set_names(g));
    assert(info_names(a + b) =~= info_names(a) + info_names(b));
    let n = info_names(a + b);
    assert forall|i: int, j: int| 0 <= i < j < n.len() implies n[i] != n[j] by {
        if j >= a.len() && i < a.len() {
            assert(set_names(g).contains(info_names(a)[i]));
            assert(!set_names(g).contains(info_names(b)[j - a.len()]));
        } else if i >= a.len() {
            assert(info_names(b)[i - a.len()] != info_names(b)[j - a.len()]);
        }
    }
}

fn copy_info(v: &ViewSchemaInfo, has_view_maker: bool, global_instance_available: bool) -> (r: ViewSetInfo)
    ensures
        r@ == info_of(v@, has_view_maker, global_instance_available),
{
    ViewSetInfo {
        view_set_name: v.view_set_name.clone(),
        current_schema_hash: bytes_copy(v.file_schema_hash.as_slice()),
        schema: v.file_schema.clone(),
        has_view_maker,
        global_instance_available,
    }
}

fn names_of(v: &Vec<ViewSchemaInfo>) -> (r: Vec<String>)
    ensures
        crate::partition::strings_view(r@) == set_names(schema_infos_view(v@)),
{
    let mut r: Vec<String> = Vec::new();
    let mut i: usize = 0;
    while i < v.len()
        invariant
            i <= v@.len(),
            crate::partition::strings_view(r@) == set_names(schema_infos_view(v@.subrange(0, i as int))),
        decreases v@.len() - i,
    {
        let ghost before = r@;
        r.push(v[i].view_set_name.clone());
        proof {
            assert(crate::partition::strings_view(r@) =~= crate::partition::strings_view(before).push(v@[i as int].view_set_name@));
            assert(schema_infos_view(v@.subrange(0, i + 1)) =~= schema_infos_view(v@.subrange(0, i as int)).push(v@[i as int]@));
            assert(set_names(schema_infos_view(v@.subrange(0, i + 1))) =~= set_names(schema_infos_view(v@.subrange(0, i as int))).push(v@[i as int].view_set_name@));
        }
        i = i + 1;
    }
    assert(v@.subrange(0, v@.len() as int) =~= v@);
    r
}

/// Lists every view set with its current schema: the global views first (one entry per set, the
/// first global view of a set giving its schema, `has_view_maker` when a view maker exists for it),
/// then the view makers whose set has no global view. Never fails. The view makers are keyed by
/// their set's name, so no two of them share one; no two entries of the listing do either.
pub fn list_view_sets(global_views: &Vec<ViewSchemaInfo>, view_makers: &Vec<ViewSchemaInfo>) -> (r: Result<Vec<ViewSetInfo>, LakehouseError>)
    requires
        set_names(schema_infos_view(view_makers@)).no_duplicates(),
    ensures
        r is Ok,
        set_infos_view(r->Ok_0@) == spec_list_view_sets(schema_infos_view(global_views@), schema_infos_view(view_makers@)),
        info_names(set_infos_view(r->Ok_0@)).no_duplicates(),
{
    proof {
        view_sets_listed_once(schema_infos_view(global_views@), schema_infos_view(view_makers@));
    }
    let ghost g = schema_infos_view(global_views@);
    let ghost m = schema_infos_view(view_makers@);
    let maker_names = names_of(view_makers);
    let mut out: Vec<ViewSetInfo> = Vec::new();
    let mut processed: Vec<String> = Vec::new();
    let mut i: usize = 0;
    while i < global_views.len()
        invariant
            i <= global_views@.len(),
            g == schema_infos_view(global_views@),
            crate::partition::strings_view(maker_names@) == set_names(m),
            crate::partition::strings_view(processed@) == set_names(g.take(i as int)),
            set_infos_view(out@) == infos_from_globals(g.take(i as int), set_names(m)),
        decreases global_views@.len() - i,
    {
        let v = &global_views[i];
        proof {
            assert(g.take(i + 1).drop_last() =~= g.take(i as int));
            assert(g.take(i + 1).last() == v@);
        }
        if !strings_contain(&processed, v.view_set_name.as_str()) {
            let has_view_maker = strings_contain(&maker_names, v.view_set_name.as_str());
            let info = copy_info(v, has_view_maker, true);
            let ghost before = out@;
            out.push(info);
            proof {
                assert(set_infos_view(out@) =~= set_infos_view(before).push(info@));
            }
        }
        let ghost before_names = processed@;
        processed.push(v.view_set_name.clone());
        proof {
            assert(crate::partition::strings_view(processed@) =~= crate::partition::strings_view(before_names).push(v@.view_set_name));
            assert(set_names(g.take(i + 1)) =~= set_names(g.take(i as int)).push(v@.view_set_name));
        }
        i = i + 1;
    }
    assert(g.take(global_views@.len() as int) =~= g);
    let ghost firsts = set_infos_view(out@);
    let mut j: usize = 0;
    while j < view_makers.len()
        invariant
            j <= view_makers@.len(),
            m == schema_infos_view(view_makers@),
            crate::partition::strings_view(processed@) == set_names(g),
            firsts == infos_from_globals(g, set_names(m)),
            set_infos_view(out@) == firsts + infos_from_makers(m.take(j as int), set_names(g)),
        decreases view_makers@.len() - j,
    {
        let v = &view_makers[j];
        proof {
            assert(m.take(j + 1).drop_last() =~= m.take(j as int));
            assert(m.take(j + 1).last() == v@);
        }
        if !strings_contain(&processed, v.view_set_name.as_str()) {
            let info = copy_info(v, true, false);
            let ghost before = out@;
            out.push(info);
            proof {
                assert(set_infos_view(out@) =~= set_infos_view(before).push(info@));
                assert(set_infos_view(out@) =~= firsts + infos_from_makers(m.take(j + 1), set_names(g)));
            }
        }
        j = j + 1;
    }
    assert(m.take(view_makers@.len() as int) =~= m);
    Ok(out)
}

/// The five columns of the `list_view_sets()` table, one row per view set.
pub struct ViewSetColumns {
    pub view_set_names: Vec<String>,
    pub schema_hashes: Vec<Vec<u8>>,
    pub schemas: Vec<String>,
    pub has_view_makers: Vec<bool>,
    pub global_instances: Vec<bool>,
}

/// Splits view set infos into the table's columns, row `i` of each column from `infos[i]`.
pub fn view_set_columns(infos: &Vec<ViewSetInfo>) -> (r: ViewSetColumns)
    ensures
        r.view_set_names@.len() == infos@.len(),
        r.schema_hashes@.len() == infos@.len(),
        r.schemas@.len() == infos@.len(),
        r.has_view_makers@.len() == infos@.len(),
        r.global_instances@.len() == infos@.len(),
        forall|i: int| 0 <= i < infos@.len() ==> {
            &&& (#[trigger] r.view_set_names@[i])@ == infos@[i].view_set_name@
            &&& r.schema_hashes@[i]@ == infos@[i].current_schema_hash@
            &&& r.schemas@[i]@ == infos@[i].schema@
            &&& r.has_view_makers@[i] == infos@[i].has_view_maker
            &&& r.global_instances@[i] == infos@[i].global_instance_available
        },
{
    let mut c = ViewSetColumns {
        view_set_names: Vec::new(),
        schema_hashes: Vec::new(),
        schemas: Vec::new(),
        has_view_makers: Vec::new(),
        global_instances: Vec::new(),
    };
    let mut i: usize = 0;
    while i < infos.len()
        invariant
            i <= infos@.len(),
            c.view_set_names@.len() == i,
            c.schema_hashes@.len() == i,
            c.schemas@.len() == i,
            c.has_view_makers@.len() == i,
            c.global_instances@.len() == i,
            forall|k: int| 0 <= k < i ==> (#[trigger] c.view_set_names@[k])@ == infos@[k].view_set_name@,
            forall|k: int| 0 <= k < i ==> (#[trigger] c.schema_hashes@[k])@ == infos@[k].current_schema_hash@,
            forall|k: int| 0 <= k < i ==> (#[trigger] c.schemas@[k])@ == infos@[k].schema@,
            forall|k: int| 0 <= k < i ==> #[trigger] c.has_view_makers@[k] == infos@[k].has_view_maker,
            forall|k: int| 0 <= k < i ==> #[trigger] c.global_instances@[k] == infos@[k].global_instance_available,
        decreases infos@.len() - i,
    {
        let info = &infos[i];
        c.view_set_names.push(info.view_set_name.clone());
        c.schema_hashes.push(bytes_copy(info.current_schema_hash.as_slice()));
        c.schemas.push(info.schema.clone());
        c.has_view_makers.push(info.has_view_maker);
        c.global_instances.push(info.global_instance_available);
        i = i + 1;
    }
    c
}

/// The `list_view_sets()` table function; `F` is the handle to the view factory it reads.
pub struct ListViewSetsTableFunction<F> {
    view_factory: F,
}

impl<F> ListViewSetsTableFunction<F> {
    pub closed spec fn spec_view_factory(&self) -> F {
        self.view_factory
    }

    pub fn new(view_factory: F) -> (r: Self)
        ensures
            r.spec_view_factory() == view_factory,
    {
        Self { view_factory }
    }

    /// The view factory handle this function was made with.
    pub fn view_factory(&self) -> (r: &F)
        ensures
            *r == self.spec_view_factory(),
    {
        &self.view_factory
    }
}

/// The table behind `list_view_sets()`.
pub struct ListViewSetsTableProvider<F> {
    pub view_factory: F,
}

impl<F> ListViewSetsTableProvider<F> {
    /// The rows of a scan: `list_view_sets` over the schemas the factory reports, as columns.
    pub fn scan_columns(&self, global_views: &Vec<ViewSchemaInfo>, view_makers: &Vec<ViewSchemaInfo>) -> (r: Result<ViewSetColumns, LakehouseError>)
        requires
            set_names(schema_infos_view(view_makers@)).no_duplicates(),
        ensures
            r is Ok,
            r->Ok_0.view_set_names@.len() == spec_list_view_sets(schema_infos_view(global_views@), schema_infos_view(view_makers@)).len(),
            forall|i: int| 0 <= i < r->Ok_0.view_set_names@.len() ==> {
                let e = spec_list_view_sets(schema_infos_view(global_views@), schema_infos_view(view_makers@))[i];
                &&& (#[trigger] r->Ok_0.view_set_names@[i])@ == e.view_set_name
                &&& r->Ok_0.schema_hashes@[i]@ == e.current_schema_hash
                &&& r->Ok_0.schemas@[i]@ == e.schema
                &&& r->Ok_0.has_view_makers@[i] == e.has_view_maker
                &&& r->Ok_0.global_instances@[i] == e.global_instance_available
            },
    {
        let infos = match list_view_sets(global_views, view_makers) {
            Ok(infos) => infos,
            Err(e) => return Err(e),
        };
        let c = view_set_columns(&infos);
        assert forall|i: int| 0 <= i < c.view_set_names@.len() implies
            set_infos_view(infos@)[i] == infos@[i]@ by {}
        Ok(c)
    }
}

} // verus!
