use vstd::prelude::*;
use crate::error::LakehouseError;
use crate::uuid_text::{parse_uuid, spec_hyphenated, spec_parse_uuid, uuid_hyphenated};
use crate::partition::{strings_contain, strings_view};
use crate::view::str_eq;

verus! {

/// What a caller may read: everything, or the rows of the listed audiences.
pub enum ReadScope {
    All,
    Audiences(Vec<String>),
}

/// What a resolution attempt found for an id: no such row, the audience stamped on its owning
/// process, or several distinct owners for one id (a `process_id`/`stream_id` collision).
pub enum OwnerAudience {
    Unknown,
    Audience(String),
    Ambiguous(Vec<OwnerAudience>),
}

/// Which table resolves an id to its owning process.
#[derive(Clone, Copy, Debug, PartialEq, Eq, Structural)]
pub enum IdKind {
    /// `processes.process_id`.
    Process,
    /// `blocks.block_id` -> `blocks.process_id` -> `processes`.
    Block,
    /// A `process_id` or a `stream_id`, resolved together.
    ProcessOrStream,
}

/// The audiences a scope lists (none for `All`).
pub open spec fn scope_audiences(scope: ReadScope) -> Seq<Seq<char>> {
    match scope {
        ReadScope::All => Seq::empty(),
        ReadScope::Audiences(a) => strings_view(a@),
    }
}

/// The whole authorization rule: `All` reads everything; otherwise an unknown owner is denied, an
/// audience must be listed, and an ambiguous id is readable only when it has owners and every one
/// of them is readable.
pub open spec fn spec_is_readable(scope: ReadScope, owner: OwnerAudience) -> bool
    decreases owner,
{
    match scope {
        ReadScope::All => true,
        ReadScope::Audiences(_) => match owner {
            OwnerAudience::Unknown => false,
            OwnerAudience::Audience(a) => scope_audiences(scope).contains(a@),
            OwnerAudience::Ambiguous(os) => os@.len() > 0 && forall|i: int| 0 <= i < os@.len() ==> spec_is_readable(scope, #[trigger] os@[i]),
        },
    }
}

/// Whether a caller with `scope` may read an id owned as `owner` (see `spec_is_readable`).
pub fn is_readable(scope: &ReadScope, owner: &OwnerAudience) -> (r: bool)
    ensures
        r == spec_is_readable(*scope, *owner),
    decreases owner,
{
    match scope {
        ReadScope::All => true,
        ReadScope::Audiences(auds) => match owner {
            OwnerAudience::Unknown => false,
            OwnerAudience::Audience(a) => {
                let r = strings_contain(auds, a.as_str());
                assert(r == spec_is_readable(*scope, *owner));
                r
            },
            OwnerAudience::Ambiguous(owners) => {
                if owners.len() == 0 {
                    return false;
                }
                let mut i: usize = 0;
                while i < owners.len()
                    invariant
                        i <= owners@.len(),
                        owners@.len() > 0,
                        *owner == OwnerAudience::Ambiguous(*owners),
                        *scope == ReadScope::Audiences(*auds),
                        forall|k: int| 0 <= k < i ==> #[trigger] spec_is_readable(*scope, owners@[k]),
                    decreases owners@.len() - i,
                {
                    proof {
                        assert(decreases_to!(*owner => (*owner)->Ambiguous_0));
                        assert(decreases_to!(*owners => owners@));
                        assert(decreases_to!(owners@ => owners@[i as int]));
                    }
                    if !is_readable(scope, &owners[i]) {
                        assert(!spec_is_readable(*scope, owners@[i as int]));
                        return false;
                    }
                    i = i + 1;
                }
                assert(i == owners@.len());
                assert(forall|k: int| 0 <= k < owners@.len() ==> spec_is_readable(*scope, #[trigger] owners@[k]));
                assert(spec_is_readable(*scope, OwnerAudience::Ambiguous(*owners)));
                assert(spec_is_readable(*scope, *owner));
                true
            },
        },
    }
}

/// Law (fail-closed): under a scope listing audiences, an id with no known owner is never readable,
/// and an ambiguous id is readable only if every one of its owners is.
pub proof fn fail_closed(scope: ReadScope, owner: OwnerAudience)
    requires
        scope is Audiences,
    ensures
        owner is Unknown ==> !spec_is_readable(scope, owner),
        owner matches OwnerAudience::Ambiguous(os) ==> (spec_is_readable(scope, owner) ==> os@.len() > 0
            && forall|i: int| 0 <= i < os@.len() ==> spec_is_readable(scope, #[trigger] os@[i])),
{
    if let OwnerAudience::Ambiguous(os) = owner {
        if spec_is_readable(scope, owner) {

        }
    }
}

/// The uniform, existence-oracle-proof denial text: `{fname}: '{id}' not found or not accessible`.
pub fn not_found_message(fname: &str, id: &str) -> (r: String)
    ensures
        r@ == fname@ + ": '"@ + id@ + "' not found or not accessible"@,
{
    let mut s = String::from_str(fname);
    s.append(": '");
    s.append(id);
    s.append("' not found or not accessible");
    s
}


/// Witness that an id's owning process was found readable under the caller's scope.
pub struct Authorized {
    id: u128,
}

impl Authorized {
    pub closed spec fn spec_id(&self) -> u128 {
        self.id
    }

    pub fn id(&self) -> (r: u128)
        ensures
            r == self.spec_id(),
    {
        self.id
    }
}

/// The guard's decisions for one caller: its scope, whether it passes the lakehouse admin gate,
/// and the view sets declared public.
pub struct AudienceGuard {
    read_scope: ReadScope,
    lakehouse_admin: bool,
    public_view_sets: Vec<String>,
}

/// What checking a `view_instance(view_set_name, view_instance_id)` call needs.
pub enum ViewInstanceCheck {
    /// Allowed with no resolution.
    Allowed,
    /// Allowed only if `id`, resolved as `kind` (a process or stream id), has a readable owner;
    /// the verdict is `view_instance_verdict`'s.
    Authorize { id: u128, kind: IdKind },
    /// Denied with this message: the instance id is neither `global` nor a UUID.
    Denied(String),
}

impl AudienceGuard {
    pub fn new(read_scope: ReadScope, lakehouse_admin: bool, public_view_sets: Vec<String>) -> (r: AudienceGuard)
        ensures
            r.spec_read_scope() == read_scope,
            r.spec_lakehouse_admin() == lakehouse_admin,
            r.spec_public_view_sets() == strings_view(public_view_sets@),
    {
        AudienceGuard { read_scope, lakehouse_admin, public_view_sets }
    }

    pub closed spec fn spec_read_scope(&self) -> ReadScope {
        self.read_scope
    }

    pub closed spec fn spec_lakehouse_admin(&self) -> bool {
        self.lakehouse_admin
    }

    pub closed spec fn spec_public_view_sets(&self) -> Seq<Seq<char>> {
        strings_view(self.public_view_sets@)
    }

    /// The caller's scope.
    pub fn read_scope(&self) -> (r: &ReadScope)
        ensures
            *r == self.spec_read_scope(),
    {
        &self.read_scope
    }

    /// Whether `view_set_name` is on the public allowlist.
    pub fn is_public_view_set(&self, view_set_name: &str) -> (r: bool)
        ensures
            r == self.spec_public_view_sets().contains(view_set_name@),
    {
        strings_contain(&self.public_view_sets, view_set_name)
    }

    /// Whether the `'global'` (multi-audience) partitions of `view_set_name` are visible: under
    /// `ReadScope::All`, for a public view set, or to a caller passing the admin gate.
    pub fn global_rows_visible(&self, view_set_name: &str) -> (r: bool)
        ensures
            r == (self.spec_read_scope() is All || self.spec_public_view_sets().contains(view_set_name@)
                || self.spec_lakehouse_admin()),
    {
        match &self.read_scope {
            ReadScope::All => true,
            ReadScope::Audiences(_) => self.is_public_view_set(view_set_name) || self.lakehouse_admin,
        }
    }

    /// Whether authorizing an id needs its owner resolved: not under `ReadScope::All`.
    pub fn needs_resolution(&self) -> (r: bool)
        ensures
            r == !(self.spec_read_scope() is All),
    {
        match &self.read_scope {
            ReadScope::All => false,
            ReadScope::Audiences(_) => true,
        }
    }

    /// The verdict on `id` once its owner is known (`None` when the scope needs no resolution):
    /// authorized when readable, otherwise the uniform denial for `fname`.
    pub fn authorize_owner(&self, id: u128, owner: Option<&OwnerAudience>, fname: &str, id_text: &str) -> (r: Result<Authorized, String>)
        ensures
            self.spec_read_scope() is All ==> r is Ok && r->Ok_0.spec_id() == id,
            !(self.spec_read_scope() is All) ==> match owner {
                Some(o) => if spec_is_readable(self.spec_read_scope(), *o) {
                    r is Ok && r->Ok_0.spec_id() == id
                } else {
                    r is Err && r->Err_0@ == fname@ + ": '"@ + id_text@ + "' not found or not accessible"@
                },
                None => r is Err && r->Err_0@ == fname@ + ": '"@ + id_text@ + "' not found or not accessible"@,
            },
    {
        if let ReadScope::All = &self.read_scope {
            return Ok(Authorized { id });
        }
        match owner {
            Some(o) => if is_readable(&self.read_scope, o) {
                Ok(Authorized { id })
            } else {
                Err(not_found_message(fname, id_text))
            },
            None => Err(not_found_message(fname, id_text)),
        }
    }

    /// The `view_instance(...)` scan-time check: allowed under `ReadScope::All`, for a public view
    /// set, or for the `global` instance; a UUID instance id must resolve to a readable owner;
    /// anything else is denied.
    pub fn check_view_instance(&self, view_set_name: &str, view_instance_id: &str) -> (r: ViewInstanceCheck)
        ensures
            (self.spec_read_scope() is All || self.spec_public_view_sets().contains(view_set_name@) || view_instance_id@ == "global"@)
                ==> r is Allowed,
            !(self.spec_read_scope() is All || self.spec_public_view_sets().contains(view_set_name@) || view_instance_id@ == "global"@)
                ==> match spec_parse_uuid(view_instance_id@) {
                Some(id) => r == (ViewInstanceCheck::Authorize { id, kind: IdKind::ProcessOrStream }),
                None => r matches ViewInstanceCheck::Denied(m)
                    && m@ == "view_instance: '"@ + view_instance_id@ + "' not found or not accessible"@,
            },
    {
        if let ReadScope::All = &self.read_scope {
            return ViewInstanceCheck::Allowed;
        }
        if self.is_public_view_set(view_set_name) {
            return ViewInstanceCheck::Allowed;
        }
        if str_eq(view_instance_id, "global") {
            return ViewInstanceCheck::Allowed;
        }
        proof {
            reveal_strlit("view_instance");
            reveal_strlit(": '");
            reveal_strlit("view_instance: '");
            assert("view_instance"@ + ": '"@ =~= "view_instance: '"@);
        }
        match parse_uuid(view_instance_id) {
            Some(id) => ViewInstanceCheck::Authorize { id, kind: IdKind::ProcessOrStream },
            None => ViewInstanceCheck::Denied(not_found_message("view_instance", view_instance_id)),
        }
    }

    /// The verdict on a UUID view instance once its owner is known (`None` when the scope needs
    /// no resolution): authorized as `view_instance` when readable, otherwise the uniform denial
    /// `view_instance: '<id>' not found or not accessible`, the id in its hyphenated form.
    pub fn view_instance_verdict(&self, id: u128, owner: Option<&OwnerAudience>) -> (r: Result<(), String>)
        ensures
            self.spec_read_scope() is All ==> r is Ok,
            !(self.spec_read_scope() is All) ==> match owner {
                Some(o) => if spec_is_readable(self.spec_read_scope(), *o) {
                    r is Ok
                } else {
                    r is Err && r->Err_0@ == "view_instance: '"@ + spec_hyphenated(id) + "' not found or not accessible"@
                },
                None => r is Err && r->Err_0@ == "view_instance: '"@ + spec_hyphenated(id) + "' not found or not accessible"@,
            },
    {
        proof {
            reveal_strlit("view_instance");
            reveal_strlit(": '");
            reveal_strlit("view_instance: '");
            assert("view_instance"@ + ": '"@ =~= "view_instance: '"@);
        }
        let id_text = uuid_hyphenated(id);
        match self.authorize_owner(id, owner, "view_instance", id_text.as_str()) {
            Ok(_) => Ok(()),
            Err(e) => Err(e),
        }
    }
}

/// The owner resolved for `id`, `Unknown` when absent.
pub open spec fn owner_for(owners: Seq<(u128, OwnerAudience)>, id: u128) -> OwnerAudience {
    if exists|k: int| 0 <= k < owners.len() && #[trigger] owners[k].0 == id {
        owners[choose|k: int| 0 <= k < owners.len() && #[trigger] owners[k].0 == id].1
    } else {
        OwnerAudience::Unknown
    }
}

/// The readable ids among `ids`, given the owners resolved for them (ids are distinct there).
pub fn readable_ids(scope: &ReadScope, ids: &Vec<u128>, owners: &Vec<(u128, OwnerAudience)>) -> (r: Vec<u128>)
    requires
        forall|i: int, j: int| 0 <= i < j < owners@.len() ==> (#[trigger] owners@[i]).0 != (#[trigger] owners@[j]).0,
    ensures
        r@ == ids@.filter(|id: u128| spec_is_readable(*scope, owner_for(owners@, id))),
{
    let ghost pred = |id: u128| spec_is_readable(*scope, owner_for(owners@, id));
    let mut out: Vec<u128> = Vec::new();
    let mut i: usize = 0;
    while i < ids.len()
        invariant
            i <= ids@.len(),
            pred == (|id: u128| spec_is_readable(*scope, owner_for(owners@, id))),
            forall|a: int, b: int| 0 <= a < b < owners@.len() ==> (#[trigger] owners@[a]).0 != (#[trigger] owners@[b]).0,
            out@ == ids@.subrange(0, i as int).filter(pred),
        decreases ids@.len() - i,
    {
        let id = ids[i];
        let mut j: usize = 0;
        let mut found: Option<usize> = None;
        while j < owners.len()
            invariant
                j <= owners@.len(),
                match found {
                    Some(k) => k < owners@.len() && owners@[k as int].0 == id,
                    None => forall|k: int| 0 <= k < j ==> (#[trigger] owners@[k]).0 != id,
                },
            decreases owners@.len() - j,
        {
            if found.is_none() && owners[j].0 == id {
                found = Some(j);
            }
            j = j + 1;
        }
        let keep = match found {
            Some(k) => {
                proof {
                    let c = choose|c: int| 0 <= c < owners@.len() && #[trigger] owners@[c].0 == id;
                    if c != k as int {
                        if c < k as int {
                            assert(owners@[c].0 != owners@[k as int].0);
                        } else {
                            assert(owners@[k as int].0 != owners@[c].0);
                        }
                    }
                }
                is_readable(scope, &owners[k].1)
            },
            None => is_readable(scope, &OwnerAudience::Unknown),
        };
        proof {
            assert(keep == pred(id));
            assert(ids@.subrange(0, i + 1) =~= ids@.subrange(0, i as int).push(id));
            ids@.subrange(0, i as int).lemma_filter_push(id, pred);
        }
        if keep {
            out.push(id);
        }
        i = i + 1;
    }
    assert(ids@.subrange(0, i as int) =~= ids@);
    out
}


/// The audience column of resolved rows, as plain values.
pub open spec fn audience_rows_view(rows: Seq<(u128, Option<String>)>) -> Seq<(u128, Option<Seq<char>>)> {
    rows.map_values(|r: (u128, Option<String>)| (r.0, match r.1 {
        Some(a) => Some(a@),
        None => None,
    }))
}

/// The distinct ids of `rows`, in order of first appearance.
pub open spec fn ids_in_order(rows: Seq<(u128, Option<Seq<char>>)>) -> Seq<u128>
    decreases rows.len(),
{
    if rows.len() == 0 {
        Seq::empty()
    } else {
        let prev = ids_in_order(rows.drop_last());
        if prev.contains(rows.last().0) {
            prev
        } else {
            prev.push(rows.last().0)
        }
    }
}

/// The distinct audiences `rows` give `id`, in order of first appearance.
pub open spec fn distinct_audiences(rows: Seq<(u128, Option<Seq<char>>)>, id: u128) -> Seq<Option<Seq<char>>>
    decreases rows.len(),
{
    if rows.len() == 0 {
        Seq::empty()
    } else {
        let prev = distinct_audiences(rows.drop_last(), id);
        if rows.last().0 == id && !prev.contains(rows.last().1) {
            prev.push(rows.last().1)
        } else {
            prev
        }
    }
}

/// Whether `owner` stands for a resolved audience column value (`None`: no audience).
pub open spec fn owner_is(owner: OwnerAudience, a: Option<Seq<char>>) -> bool {
    match a {
        None => owner is Unknown,
        Some(s) => owner matches OwnerAudience::Audience(x) && x@ == s,
    }
}

/// The owner an id's distinct audiences give: the audience itself when there is one, otherwise
/// `Ambiguous` over all of them, in order (a `process_id`/`stream_id` collision: fail-closed).
pub open spec fn owner_from_distinct(owner: OwnerAudience, d: Seq<Option<Seq<char>>>) -> bool {
    if d.len() == 1 {
        owner_is(owner, d[0])
    } else {
        owner matches OwnerAudience::Ambiguous(vs) && vs@.len() == d.len()
            && forall|k: int| 0 <= k < d.len() ==> owner_is(#[trigger] vs@[k], d[k])
    }
}

fn opt_str_eq(a: &Option<String>, b: &Option<String>) -> (r: bool)
    ensures
        r == (match (a, b) {
            (None, None) => true,
            (Some(x), Some(y)) => x@ == y@,
            _ => false,
        }),
{
    match (a, b) {
        (None, None) => true,
        (Some(x), Some(y)) => str_eq(x.as_str(), y.as_str()),
        _ => false,
    }
}

pub open spec fn opt_strs_view(v: Seq<Option<String>>) -> Seq<Option<Seq<char>>> {
    v.map_values(|a: Option<String>| match a {
        Some(s) => Some(s@),
        None => None,
    })
}

fn owner_of_audience(a: Option<String>) -> (r: OwnerAudience)
    ensures
        owner_is(r, match a {
            Some(s) => Some(s@),
            None => None,
        }),
{
    match a {
        Some(s) => OwnerAudience::Audience(s),
        None => OwnerAudience::Unknown,
    }
}

proof fn lemma_distinct_push(rows: Seq<(u128, Option<Seq<char>>)>, row: (u128, Option<Seq<char>>), id: u128)
    ensures
        distinct_audiences(rows.push(row), id) == (if row.0 == id && !distinct_audiences(rows, id).contains(row.1) {
            distinct_audiences(rows, id).push(row.1)
        } else {
            distinct_audiences(rows, id)
        }),
        ids_in_order(rows.push(row)) == (if ids_in_order(rows).contains(row.0) {
            ids_in_order(rows)
        } else {
            ids_in_order(rows).push(row.0)
        }),
{
    assert(rows.push(row).drop_last() =~= rows);
}

proof fn lemma_distinct_nonempty(rows: Seq<(u128, Option<Seq<char>>)>, id: u128)
    ensures
        ids_in_order(rows).contains(id) <==> distinct_audiences(rows, id).len() > 0,
    decreases rows.len(),
{
    if rows.len() > 0 {
        let r1 = rows.drop_last();
        let x = rows.last().0;
        let a = rows.last().1;
        lemma_distinct_nonempty(r1, id);
        let p = ids_in_order(r1);
        let d = distinct_audiences(r1, id);
        if x == id {
            if !p.contains(x) {
                assert(p.push(x)[p.len() as int] == x);
            }
            assert(ids_in_order(rows).contains(id));
            if d.contains(a) {
                let k = choose|k: int| 0 <= k < d.len() && d[k] == a;
                assert(d.len() > 0);
            }
            assert(distinct_audiences(rows, id).len() > 0);
        } else {
            assert(distinct_audiences(rows, id) == d);
            if !p.contains(x) {
                assert(p.push(x).contains(id) ==> p.contains(id)) by {
                    if p.push(x).contains(id) {
                        let k = choose|k: int| 0 <= k < p.len() + 1 && p.push(x)[k] == id;
                        assert(k < p.len());
                        assert(p[k] == id);
                    }
                }
                assert(p.contains(id) ==> p.push(x).contains(id)) by {
                    if p.contains(id) {
                        let k = choose|k: int| 0 <= k < p.len() && p[k] == id;
                        assert(p.push(x)[k] == id);
                    }
                }
            }
        }
    }
}

pub(crate) fn u128s_contain(v: &Vec<u128>, x: u128) -> (r: bool)
    ensures
        r == v@.contains(x),
{
    let mut i: usize = 0;
    while i < v.len()
        invariant
            i <= v@.len(),
            forall|k: int| 0 <= k < i ==> v@[k] != x,
        decreases v@.len() - i,
    {
        if v[i] == x {
            assert(v@[i as int] == x);
            return true;
        }
        i = i + 1;
    }
    false
}

/// The distinct ids of the rows, in order of first appearance.
fn distinct_ids(rows: &Vec<(u128, Option<String>)>) -> (r: Vec<u128>)
    ensures
        r@ == ids_in_order(audience_rows_view(rows@)),
{
    let ghost rv = audience_rows_view(rows@);
    let mut out: Vec<u128> = Vec::new();
    let mut i: usize = 0;
    while i < rows.len()
        invariant
            i <= rows@.len(),
            rv == audience_rows_view(rows@),
            out@ == ids_in_order(rv.take(i as int)),
        decreases rows@.len() - i,
    {
        proof {
            assert(rv.take(i + 1) =~= rv.take(i as int).push(rv[i as int]));
            lemma_distinct_push(rv.take(i as int), rv[i as int], rows@[i as int].0);
        }
        let id = rows[i].0;
        if !u128s_contain(&out, id) {
            out.push(id);
        }
        i = i + 1;
    }
    assert(rv.take(rows@.len() as int) =~= rv);
    out
}

fn opt_strs_contain(v: &Vec<Option<String>>, a: &Option<String>) -> (r: bool)
    ensures
        r == opt_strs_view(v@).contains(match a {
            Some(s) => Some(s@),
            None => None,
        }),
{
    let ghost av = match a {
        Some(s) => Some(s@),
        None => None,
    };
    let ghost vv = opt_strs_view(v@);
    let mut i: usize = 0;
    while i < v.len()
        invariant
            i <= v@.len(),
            vv == opt_strs_view(v@),
            av == (match a {
                Some(s) => Some(s@),
                None => None::<Seq<char>>,
            }),
            forall|k: int| 0 <= k < i ==> vv[k] != av,
        decreases v@.len() - i,
    {
        if opt_str_eq(&v[i], a) {
            assert(vv[i as int] == av);
            return true;
        }
        i = i + 1;
    }
    assert(!vv.contains(av)) by {
        if vv.contains(av) {
            let k = choose|k: int| 0 <= k < vv.len() && vv[k] == av;
            assert(vv[k] != av);
        }
    }
    false
}

fn copy_opt_str(a: &Option<String>) -> (r: Option<String>)
    ensures
        (match r {
            Some(s) => Some(s@),
            None => None::<Seq<char>>,
        }) == (match a {
            Some(s) => Some(s@),
            None => None::<Seq<char>>,
        }),
{
    match a {
        Some(s) => Some(s.clone()),
        None => None,
    }
}

/// The distinct audiences the rows give `id`, in order of first appearance.
fn audiences_of(rows: &Vec<(u128, Option<String>)>, id: u128) -> (r: Vec<Option<String>>)
    ensures
        opt_strs_view(r@) == distinct_audiences(audience_rows_view(rows@), id),
{
    let ghost rv = audience_rows_view(rows@);
    let mut out: Vec<Option<String>> = Vec::new();
    let mut i: usize = 0;
    while i < rows.len()
        invariant
            i <= rows@.len(),
            rv == audience_rows_view(rows@),
            opt_strs_view(out@) == distinct_audiences(rv.take(i as int), id),
        decreases rows@.len() - i,
    {
        proof {
            assert(rv.take(i + 1) =~= rv.take(i as int).push(rv[i as int]));
            lemma_distinct_push(rv.take(i as int), rv[i as int], id);
        }
        if rows[i].0 == id && !opt_strs_contain(&out, &rows[i].1) {
            let a = copy_opt_str(&rows[i].1);
            let ghost before = out@;
            out.push(a);
            assert(opt_strs_view(out@) =~= opt_strs_view(before).push(rv[i as int].1));
        }
        i = i + 1;
    }
    assert(rv.take(rows@.len() as int) =~= rv);
    out
}

/// The owner of one id from its distinct audiences.
fn owner_from_audiences(auds: Vec<Option<String>>) -> (r: OwnerAudience)
    requires
        auds@.len() > 0,
    ensures
        owner_from_distinct(r, opt_strs_view(auds@)),
{
    let ghost d = opt_strs_view(auds@);
    if auds.len() == 1 {
        let mut auds = auds;
        let a = auds.pop().unwrap();
        return owner_of_audience(a);
    }
    let mut owners: Vec<OwnerAudience> = Vec::new();
    let mut i: usize = 0;
    while i < auds.len()
        invariant
            i <= auds@.len(),
            d == opt_strs_view(auds@),
            owners@.len() == i,
            forall|k: int| 0 <= k < i ==> owner_is(#[trigger] owners@[k], d[k]),
        decreases auds@.len() - i,
    {
        let a = copy_opt_str(&auds[i]);
        owners.push(owner_of_audience(a));
        i = i + 1;
    }
    OwnerAudience::Ambiguous(owners)
}

/// Merges `(id, audience)` rows into one owner per id, ids in order of first appearance: the id's
/// audience when all its rows agree, `Unknown` for a missing audience, and `Ambiguous` over the
/// distinct values when the rows of one id disagree (fail-closed on a `process_id`/`stream_id`
/// collision).
pub fn merge_owner_rows(rows: Vec<(u128, Option<String>)>) -> (r: Vec<(u128, OwnerAudience)>)
    ensures
        r@.len() == ids_in_order(audience_rows_view(rows@)).len(),
        forall|k: int| 0 <= k < r@.len() ==> {
            &&& (#[trigger] r@[k]).0 == ids_in_order(audience_rows_view(rows@))[k]
            &&& owner_from_distinct(r@[k].1, distinct_audiences(audience_rows_view(rows@), r@[k].0))
        },
{
    let ghost rv = audience_rows_view(rows@);
    let ids = distinct_ids(&rows);
    let mut out: Vec<(u128, OwnerAudience)> = Vec::new();
    let mut i: usize = 0;
    while i < ids.len()
        invariant
            i <= ids@.len(),
            rv == audience_rows_view(rows@),
            ids@ == ids_in_order(rv),
            out@.len() == i,
            forall|k: int| 0 <= k < i ==> {
                &&& (#[trigger] out@[k]).0 == ids@[k]
                &&& owner_from_distinct(out@[k].1, distinct_audiences(rv, out@[k].0))
            },
        decreases ids@.len() - i,
    {
        let id = ids[i];
        proof {
            assert(ids@.contains(id)) by {
                assert(ids@[i as int] == id);
            }
            lemma_distinct_nonempty(rv, id);
        }
        let auds = audiences_of(&rows, id);
        let owner = owner_from_audiences(auds);
        out.push((id, owner));
        i = i + 1;
    }
    out
}

/// Whether `x` is one of the `ids` not found in the cache.
pub open spec fn is_miss(ids: Seq<u128>, cached: Seq<bool>, x: u128) -> bool {
    exists|i: int| 0 <= i < ids.len() && !cached[i] && ids[i] == x
}

/// The missed ids among the first `n`, each once, in order of first appearance.
pub open spec fn first_misses(ids: Seq<u128>, cached: Seq<bool>, n: int) -> Seq<u128>
    decreases n,
{
    if n <= 0 {
        Seq::empty()
    } else {
        let prev = first_misses(ids, cached, n - 1);
        if !cached[n - 1] && !prev.contains(ids[n - 1]) {
            prev.push(ids[n - 1])
        } else {
            prev
        }
    }
}

/// The ids whose owner is not cached yet, each once, in order of first appearance (`cached[i]`
/// tells whether `ids[i]` was found in the cache).
pub fn distinct_misses(ids: &Vec<u128>, cached: &Vec<bool>) -> (r: Vec<u128>)
    requires
        cached@.len() == ids@.len(),
    ensures
        forall|k: int| 0 <= k < r@.len() ==> is_miss(ids@, cached@, #[trigger] r@[k]),
        forall|i: int| 0 <= i < ids@.len() && !cached@[i] ==> r@.contains(#[trigger] ids@[i]),
        forall|a: int, b: int| 0 <= a < b < r@.len() ==> r@[a] != r@[b],
        r@ == first_misses(ids@, cached@, ids@.len() as int),
{
    let mut out: Vec<u128> = Vec::new();
    let mut i: usize = 0;
    while i < ids.len()
        invariant
            i <= ids@.len(),
            cached@.len() == ids@.len(),
            forall|k: int| 0 <= k < out@.len() ==> is_miss(ids@, cached@, #[trigger] out@[k]),
            forall|j: int| 0 <= j < i && !cached@[j] ==> out@.contains(#[trigger] ids@[j]),
            forall|a: int, b: int| 0 <= a < b < out@.len() ==> out@[a] != out@[b],
            out@ == first_misses(ids@, cached@, i as int),
        decreases ids@.len() - i,
    {
        if !cached[i] && !u128s_contain(&out, ids[i]) {
            let ghost before = out@;
            out.push(ids[i]);
            proof {
                assert(out@[before.len() as int] == ids@[i as int]);
                assert(is_miss(ids@, cached@, ids@[i as int]));
                assert forall|j: int| 0 <= j < i + 1 && !cached@[j] implies out@.contains(#[trigger] ids@[j]) by {
                    if j < i {
                        let k = choose|k: int| 0 <= k < before.len() && before[k] == ids@[j];
                        assert(out@[k] == ids@[j]);
                    } else {
                        assert(out@[before.len() as int] == ids@[j]);
                    }
                }
            }
        } else {
            proof {
                if !cached@[i as int] {
                    assert(out@.contains(ids@[i as int]));
                }
            }
        }
        i = i + 1;
    }
    out
}

/// The owner query of process ids: `$1` the ids (`uuid[]`), `$2` the audience property key,
/// `$3` the default audience.
pub const PROCESS_OWNER_SQL: &'static str = "SELECT p.process_id AS id, COALESCE(a.value, $3) AS audience\n             FROM processes p\n             LEFT JOIN LATERAL (\n                 SELECT value FROM unnest(p.properties) WHERE key = $2 LIMIT 1\n             ) a ON TRUE\n             WHERE p.process_id = ANY($1::uuid[])";

/// The owner query of block ids, through the block's process.
pub const BLOCK_OWNER_SQL: &'static str = "SELECT b.block_id AS id, COALESCE(a.value, $3) AS audience\n             FROM blocks b\n             JOIN processes p ON p.process_id = b.process_id\n             LEFT JOIN LATERAL (\n                 SELECT value FROM unnest(p.properties) WHERE key = $2 LIMIT 1\n             ) a ON TRUE\n             WHERE b.block_id = ANY($1::uuid[])";

/// The owner query of ids that are process or stream ids: one row per match of either kind, so a
/// colliding id shows every owner it has.
pub const PROCESS_OR_STREAM_OWNER_SQL: &'static str = "SELECT p.process_id AS id, COALESCE(a.value, $3) AS audience\n             FROM processes p\n             LEFT JOIN LATERAL (\n                 SELECT value FROM unnest(p.properties) WHERE key = $2 LIMIT 1\n             ) a ON TRUE\n             WHERE p.process_id = ANY($1::uuid[])\n             UNION ALL\n             SELECT s.stream_id AS id, COALESCE(a.value, $3) AS audience\n             FROM streams s\n             JOIN processes p ON p.process_id = s.process_id\n             LEFT JOIN LATERAL (\n                 SELECT value FROM unnest(p.properties) WHERE key = $2 LIMIT 1\n             ) a ON TRUE\n             WHERE s.stream_id = ANY($1::uuid[])";

/// No two entries give an owner for the same id.
pub open spec fn owner_ids_distinct(owners: Seq<(u128, OwnerAudience)>) -> bool {
    forall|a: int, b: int| 0 <= a < b < owners.len() ==> (#[trigger] owners[a]).0 != (#[trigger] owners[b]).0
}

proof fn lemma_owner_at(owners: Seq<(u128, OwnerAudience)>, k: int)
    requires
        owner_ids_distinct(owners),
        0 <= k < owners.len(),
    ensures
        owner_for(owners, owners[k].0) == owners[k].1,
{
    let id = owners[k].0;
    assert(owners[k].0 == id);
    let c = choose|c: int| 0 <= c < owners.len() && #[trigger] owners[c].0 == id;
    if c != k {
        if c < k {
            assert(owners[c].0 != owners[k].0);
        } else {
            assert(owners[k].0 != owners[c].0);
        }
    }
}

proof fn lemma_remove_keeps_distinct(owners: Seq<(u128, OwnerAudience)>, j: int)
    requires
        owner_ids_distinct(owners),
        0 <= j < owners.len(),
    ensures
        owner_ids_distinct(owners.remove(j)),
{
    let r = owners.remove(j);
    assert forall|a: int, b: int| 0 <= a < b < r.len() implies (#[trigger] r[a]).0 != (#[trigger] r[b]).0 by {
        let a2 = if a < j { a } else { a + 1 };
        let b2 = if b < j { b } else { b + 1 };
        assert(r[a] == owners[a2] && r[b] == owners[b2]);
    }
}

proof fn lemma_owner_after_remove(owners: Seq<(u128, OwnerAudience)>, j: int, id: u128)
    requires
        owner_ids_distinct(owners),
        0 <= j < owners.len(),
        owners[j].0 != id,
    ensures
        owner_for(owners.remove(j), id) == owner_for(owners, id),
{
    let r = owners.remove(j);
    lemma_remove_keeps_distinct(owners, j);
    if exists|k: int| 0 <= k < owners.len() && #[trigger] owners[k].0 == id {
        let k = choose|k: int| 0 <= k < owners.len() && #[trigger] owners[k].0 == id;
        lemma_owner_at(owners, k);
        let k2 = if k < j { k } else { k - 1 };
        assert(k != j);
        assert(r[k2] == owners[k]);
        lemma_owner_at(r, k2);
    } else {
        assert forall|k: int| 0 <= k < r.len() implies #[trigger] r[k].0 != id by {
            let k2 = if k < j { k } else { k + 1 };
            assert(r[k] == owners[k2]);
        }
    }
}

/// Completes a batch resolution: for each id missed by the cache, in order, its owner among the
/// freshly resolved ones (`Unknown` when none was found) and whether to cache it -- every owner
/// but `Unknown`, since a miss may only mean "not ingested yet".
pub fn resolve_misses(misses: &Vec<u128>, resolved: Vec<(u128, OwnerAudience)>) -> (r: Vec<(u128, OwnerAudience, bool)>)
    requires
        forall|a: int, b: int| 0 <= a < b < misses@.len() ==> misses@[a] != misses@[b],
        owner_ids_distinct(resolved@),
    ensures
        r@.len() == misses@.len(),
        forall|k: int| 0 <= k < r@.len() ==> {
            &&& (#[trigger] r@[k]).0 == misses@[k]
            &&& r@[k].1 == owner_for(resolved@, misses@[k])
            &&& r@[k].2 == !(r@[k].1 is Unknown)
        },
{
    let ghost all = resolved@;
    let mut rest = resolved;
    let mut out: Vec<(u128, OwnerAudience, bool)> = Vec::new();
    let mut i: usize = 0;
    while i < misses.len()
        invariant
            i <= misses@.len(),
            forall|a: int, b: int| 0 <= a < b < misses@.len() ==> misses@[a] != misses@[b],
            owner_ids_distinct(rest@),
            forall|m: int| i <= m < misses@.len() ==> owner_for(rest@, #[trigger] misses@[m]) == owner_for(all, misses@[m]),
            out@.len() == i,
            forall|k: int| 0 <= k < i ==> {
                &&& (#[trigger] out@[k]).0 == misses@[k]
                &&& out@[k].1 == owner_for(all, misses@[k])
                &&& out@[k].2 == !(out@[k].1 is Unknown)
            },
        decreases misses@.len() - i,
    {
        let id = misses[i];
        let mut j: usize = 0;
        while j < rest.len() && rest[j].0 != id
            invariant
                j <= rest@.len(),
                forall|q: int| 0 <= q < j ==> (#[trigger] rest@[q]).0 != id,
            decreases rest@.len() - j,
        {
            j = j + 1;
        }
        let ghost before_rest = rest@;
        let owner = if j < rest.len() {
            proof {
                lemma_owner_at(before_rest, j as int);
                assert forall|m: int| i < m < misses@.len() implies owner_for(before_rest.remove(j as int), #[trigger] misses@[m]) == owner_for(all, misses@[m]) by {
                    assert(misses@[m] != misses@[i as int]);
                    lemma_owner_after_remove(before_rest, j as int, misses@[m]);
                }
                lemma_remove_keeps_distinct(before_rest, j as int);
            }
            let (_, owner) = rest.remove(j);
            owner
        } else {
            proof {
                assert(!exists|k: int| 0 <= k < before_rest.len() && #[trigger] before_rest[k].0 == id);
            }
            OwnerAudience::Unknown
        };
        let keep = match &owner {
            OwnerAudience::Unknown => false,
            _ => true,
        };
        let ghost before = out@;
        out.push((id, owner, keep));
        proof {
            assert forall|k: int| 0 <= k < i + 1 implies {
                &&& (#[trigger] out@[k]).0 == misses@[k]
                &&& out@[k].1 == owner_for(all, misses@[k])
                &&& out@[k].2 == !(out@[k].1 is Unknown)
            } by {
                if k < i {
                    assert(out@[k] == before[k]);
                }
            }
        }
        i = i + 1;
    }
    out
}

// ---------------------------------------------------------------------------------------------
// Resolving a batch of ids through the cache and one fetch of the misses.

/// Which ids the cache answered.
pub open spec fn hits_of(cached: Seq<Option<OwnerAudience>>) -> Seq<bool> {
    cached.map_values(|c: Option<OwnerAudience>| c is Some)
}

/// What the cache answered for `id` at its last occurrence among the first `n` ids.
pub open spec fn last_cached(ids: Seq<u128>, cached: Seq<Option<OwnerAudience>>, n: int, id: u128) -> Option<OwnerAudience>
    decreases n,
{
    if n <= 0 {
        None
    } else if ids[n - 1] == id {
        cached[n - 1]
    } else {
        last_cached(ids, cached, n - 1, id)
    }
}

/// Some fetched row is about `id`.
pub open spec fn rows_have(rows: Seq<(u128, Option<Seq<char>>)>, id: u128) -> bool {
    exists|i: int| 0 <= i < rows.len() && #[trigger] rows[i].0 == id
}

/// The owner the fetched rows give `id`: from its distinct audiences when a row is about it,
/// otherwise `Unknown`.
pub open spec fn fetched_owner_is(owner: OwnerAudience, rows: Seq<(u128, Option<Seq<char>>)>, id: u128) -> bool {
    if rows_have(rows, id) {
        owner_from_distinct(owner, distinct_audiences(rows, id))
    } else {
        owner is Unknown
    }
}

/// Whether `e` (id, owner, whether to cache it) is the resolution of its id: an id the cache missed
/// at least once gets the owner the fetched rows give it, cached unless `Unknown`; any other id
/// gets what the cache answered at its last occurrence, and is not cached again.
pub open spec fn resolved_entry_is(e: (u128, OwnerAudience, bool), ids: Seq<u128>, cached: Seq<Option<OwnerAudience>>,
    rows: Seq<(u128, Option<Seq<char>>)>) -> bool {
    if is_miss(ids, hits_of(cached), e.0) {
        &&& fetched_owner_is(e.1, rows, e.0)
        &&& e.2 == !(e.1 is Unknown)
    } else {
        &&& last_cached(ids, cached, ids.len() as int, e.0) == Some(e.1)
        &&& !e.2
    }
}

pub open spec fn entry_ids(r: Seq<(u128, OwnerAudience, bool)>) -> Seq<u128> {
    r.map_values(|e: (u128, OwnerAudience, bool)| e.0)
}

proof fn lemma_ids_in_order(rows: Seq<(u128, Option<Seq<char>>)>)
    ensures
        forall|a: int, b: int| 0 <= a < b < ids_in_order(rows).len() ==> ids_in_order(rows)[a] != ids_in_order(rows)[b],
        forall|x: u128| #[trigger] ids_in_order(rows).contains(x) <==> rows_have(rows, x),
    decreases rows.len(),
{
    if rows.len() > 0 {
        let d = rows.drop_last();
        lemma_ids_in_order(d);
        let prev = ids_in_order(d);
        assert forall|x: u128| #[trigger] ids_in_order(rows).contains(x) <==> rows_have(rows, x) by {
            if rows_have(d, x) {
                let i = choose|i: int| 0 <= i < d.len() && #[trigger] d[i].0 == x;
                assert(rows[i].0 == x);
            }
            if rows_have(rows, x) {
                let i = choose|i: int| 0 <= i < rows.len() && #[trigger] rows[i].0 == x;
                if i < d.len() {
                    assert(d[i].0 == x);
                }
            }
            if !prev.contains(rows.last().0) {
                assert(prev.push(rows.last().0)[prev.len() as int] == rows.last().0);
                if prev.push(rows.last().0).contains(x) && x != rows.last().0 {
                    let k = choose|k: int| 0 <= k < prev.len() + 1 && prev.push(rows.last().0)[k] == x;
                    assert(prev[k] == x);
                }
                if prev.contains(x) {
                    let k = choose|k: int| 0 <= k < prev.len() && prev[k] == x;
                    assert(prev.push(rows.last().0)[k] == x);
                }
            }
            assert(rows[rows.len() - 1].0 == rows.last().0);
        }
    }
}

proof fn lemma_last_cached_skip(ids: Seq<u128>, cached: Seq<Option<OwnerAudience>>, m: int, n: int, id: u128)
    requires
        0 <= m <= n <= ids.len(),
        forall|i: int| m <= i < n ==> ids[i] != id,
    ensures
        last_cached(ids, cached, n, id) == last_cached(ids, cached, m, id),
    decreases n - m,
{
    if m < n {
        lemma_last_cached_skip(ids, cached, m, n - 1, id);
    }
}

/// The owners to fetch for a batch: the ids the cache missed, each once, in order of first
/// appearance (`cached[i]` is what the cache answered for `ids[i]`). When it is empty there is
/// nothing to fetch.
pub fn owners_to_fetch(ids: &Vec<u128>, cached: &Vec<Option<OwnerAudience>>) -> (r: Vec<u128>)
    requires
        cached@.len() == ids@.len(),
    ensures
        r@ == first_misses(ids@, hits_of(cached@), ids@.len() as int),
        forall|a: int, b: int| 0 <= a < b < r@.len() ==> r@[a] != r@[b],
        forall|x: u128| r@.contains(x) <==> is_miss(ids@, hits_of(cached@), x),
        r@.len() == 0 <==> forall|i: int| 0 <= i < ids@.len() ==> (#[trigger] cached@[i]) is Some,
{
    let mut hits: Vec<bool> = Vec::new();
    let mut i: usize = 0;
    while i < cached.len()
        invariant
            i <= cached@.len(),
            hits@ == hits_of(cached@).take(i as int),
        decreases cached@.len() - i,
    {
        hits.push(cached[i].is_some());
        assert(hits@ =~= hits_of(cached@).take(i + 1));
        i = i + 1;
    }
    assert(hits@ =~= hits_of(cached@));
    let r = distinct_misses(ids, &hits);
    proof {
        assert forall|x: u128| r@.contains(x) <==> is_miss(ids@, hits@, x) by {
            if r@.contains(x) {
                let k = choose|k: int| 0 <= k < r@.len() && r@[k] == x;
                assert(is_miss(ids@, hits@, r@[k]));
            }
            if is_miss(ids@, hits@, x) {
                let i = choose|i: int| 0 <= i < ids@.len() && !hits@[i] && ids@[i] == x;
                assert(r@.contains(ids@[i]));
            }
        }
        if r@.len() == 0 {
            assert forall|i: int| 0 <= i < ids@.len() implies (#[trigger] cached@[i]) is Some by {
                if cached@[i] is None {
                    assert(!hits@[i]);
                    assert(r@.contains(ids@[i]));
                }
            }
        } else {
            let x = r@[0];
            assert(is_miss(ids@, hits@, x));
            let i = choose|i: int| 0 <= i < ids@.len() && !hits@[i] && ids@[i] == x;
            assert(cached@[i] is None);
        }
    }
    r
}

/// Whether `r` resolves the batch `ids`: one entry per distinct id, each the resolution of its id
/// (see `resolved_entry_is`), with whether to cache it; an `Unknown` owner is never cached.
pub open spec fn resolution_is(r: Seq<(u128, OwnerAudience, bool)>, ids: Seq<u128>, cached: Seq<Option<OwnerAudience>>,
    rows: Seq<(u128, Option<Seq<char>>)>) -> bool {
    &&& forall|a: int, b: int| 0 <= a < b < r.len() ==> r[a].0 != r[b].0
    &&& forall|x: u128| entry_ids(r).contains(x) <==> ids.contains(x)
    &&& forall|k: int| 0 <= k < r.len() ==> resolved_entry_is(#[trigger] r[k], ids, cached, rows)
    &&& forall|k: int| 0 <= k < r.len() ==> (#[trigger] r[k]).2 ==> !(r[k].1 is Unknown)
}

/// Resolves a batch of ids, given what the cache answered for each (`cached[i]` for `ids[i]`) and
/// the `(id, audience)` rows of the one fetch made for `owners_to_fetch` (none when it is empty):
/// one entry per distinct id, each the resolution of its id (see `resolved_entry_is`), with whether
/// to cache it; an `Unknown` owner is never cached.
pub fn resolve_owners(ids: &Vec<u128>, cached: Vec<Option<OwnerAudience>>, rows: Vec<(u128, Option<String>)>)
    -> (r: Vec<(u128, OwnerAudience, bool)>)
    requires
        cached@.len() == ids@.len(),
    ensures
        resolution_is(r@, ids@, cached@, audience_rows_view(rows@)),
{
    let ghost c0 = cached@;
    let ghost rv = audience_rows_view(rows@);
    let n = ids.len();
    let misses = owners_to_fetch(ids, &cached);
    let ghost hits = hits_of(c0);
    // The fetched owners, one per id.
    let resolved = merge_owner_rows(rows);
    proof {
        lemma_ids_in_order(rv);
        assert(owner_ids_distinct(resolved@)) by {
            assert forall|a: int, b: int| 0 <= a < b < resolved@.len() implies (#[trigger] resolved@[a]).0 != (#[trigger] resolved@[b]).0 by {
                assert(resolved@[a].0 == ids_in_order(rv)[a]);
                assert(resolved@[b].0 == ids_in_order(rv)[b]);
            }
        }
        assert forall|x: u128| #[trigger] fetched_owner_is(owner_for(resolved@, x), rv, x) by {
            if rows_have(rv, x) {
                assert(ids_in_order(rv).contains(x));
                let k = choose|k: int| 0 <= k < ids_in_order(rv).len() && ids_in_order(rv)[k] == x;
                assert(resolved@[k].0 == x);
                lemma_owner_at(resolved@, k);
            } else {
                assert forall|k: int| 0 <= k < resolved@.len() implies #[trigger] resolved@[k].0 != x by {
                    assert(resolved@[k].0 == ids_in_order(rv)[k]);
                    assert(ids_in_order(rv).contains(ids_in_order(rv)[k]));
                }
            }
        }
    }
    let missed = resolve_misses(&misses, resolved);
    // The ids the cache always answered, each with its answer at its last occurrence.
    let mut rest = cached;
    let mut out: Vec<(u128, OwnerAudience, bool)> = Vec::new();
    let mut j: usize = n;
    while j > 0
        invariant
            n == ids@.len(),
            c0.len() == n,
            hits == hits_of(c0),
            misses@ == first_misses(ids@, hits, n as int),
            forall|x: u128| misses@.contains(x) <==> is_miss(ids@, hits, x),
            j <= n,
            rest@ == c0.take(j as int),
            forall|a: int, b: int| 0 <= a < b < out@.len() ==> out@[a].0 != out@[b].0,
            forall|x: u128| entry_ids(out@).contains(x)
                <==> (!is_miss(ids@, hits, x) && exists|i: int| j <= i < n && #[trigger] ids@[i] == x),
            forall|k: int| 0 <= k < out@.len() ==> resolved_entry_is(#[trigger] out@[k], ids@, c0, rv),
            forall|k: int| 0 <= k < out@.len() ==> !(#[trigger] out@[k]).2,
        decreases j,
    {
        let c = rest.pop().unwrap();
        let id = ids[j - 1];
        let ghost before = out@;
        proof {
            assert(c == c0[j - 1]);
        }
        let is_missed = u128s_contain(&misses, id);
        let seen = ids_contain_entry(&out, id);
        if !is_missed && !seen {
            proof {
                assert forall|i: int| j <= i < n implies ids@[i] != id by {
                    if ids@[i] == id {
                        assert(entry_ids(out@).contains(id));
                    }
                }
                lemma_last_cached_skip(ids@, c0, j as int, n as int, id);
                if c is None {
                    assert(!hits[j - 1]);
                    assert(is_miss(ids@, hits, id));
                }
            }
            let owner = match c {
                Some(o) => o,
                None => {
                    assert(false);
                    OwnerAudience::Unknown
                },
            };
            out.push((id, owner, false));
            proof {
                assert(entry_ids(out@) =~= entry_ids(before).push(id));
                assert forall|k: int| 0 <= k < out@.len() implies resolved_entry_is(#[trigger] out@[k], ids@, c0, rv) by {
                    if k < before.len() {
                        assert(out@[k] == before[k]);
                    }
                }
                assert forall|k: int| 0 <= k < out@.len() implies !(#[trigger] out@[k]).2 by {
                    if k < before.len() {
                        assert(out@[k] == before[k]);
                    }
                }
                assert forall|a: int, b: int| 0 <= a < b < out@.len() implies out@[a].0 != out@[b].0 by {
                    if b == before.len() {
                        assert(entry_ids(before)[a] == before[a].0);
                    } else {
                        assert(out@[a] == before[a] && out@[b] == before[b]);
                    }
                }
            }
        }
        proof {
            if is_missed || seen {
                assert(out@ == before);
            } else {
                assert(entry_ids(out@) =~= entry_ids(before).push(id));
            }
            assert forall|x: u128| entry_ids(out@).contains(x)
                <==> (!is_miss(ids@, hits, x) && exists|i: int| j - 1 <= i < n && #[trigger] ids@[i] == x) by {
                if x == id {
                    assert(ids@[j - 1] == x);
                    if !is_missed && !seen {
                        assert(entry_ids(out@)[before.len() as int] == x);
                    }
                }
                if exists|i: int| j <= i < n && #[trigger] ids@[i] == x {
                    let i = choose|i: int| j <= i < n && #[trigger] ids@[i] == x;
                    assert(j - 1 <= i < n && ids@[i] == x);
                }
                if exists|i: int| j - 1 <= i < n && #[trigger] ids@[i] == x {
                    let i = choose|i: int| j - 1 <= i < n && #[trigger] ids@[i] == x;
                    if i >= j {
                        assert(j <= i < n && ids@[i] == x);
                    }
                }
                if entry_ids(before).contains(x) {
                    let k = choose|k: int| 0 <= k < entry_ids(before).len() && entry_ids(before)[k] == x;
                    assert(entry_ids(out@)[k] == x);
                }
            }
            assert(rest@ =~= c0.take(j - 1));
        }
        j = j - 1;
    }
    let ghost hit_part = out@;
    let ghost miss_part = missed@;
    let mut missed = missed;
    out.append(&mut missed);
    proof {
        assert(out@ == hit_part + miss_part);
        assert forall|x: u128| entry_ids(miss_part).contains(x) <==> misses@.contains(x) by {
            if misses@.contains(x) {
                let k = choose|k: int| 0 <= k < misses@.len() && misses@[k] == x;
                assert(entry_ids(miss_part)[k] == x);
            }
            if entry_ids(miss_part).contains(x) {
                let k = choose|k: int| 0 <= k < entry_ids(miss_part).len() && entry_ids(miss_part)[k] == x;
                assert(miss_part[k].0 == misses@[k]);
            }
        }
        assert(entry_ids(out@) =~= entry_ids(hit_part) + entry_ids(miss_part));
        assert forall|x: u128| entry_ids(out@).contains(x) <==> ids@.contains(x) by {
            if ids@.contains(x) {
                let i = choose|i: int| 0 <= i < ids@.len() && ids@[i] == x;
                if is_miss(ids@, hits, x) {
                    assert(misses@.contains(x));
                    assert(entry_ids(miss_part).contains(x));
                    let k = choose|k: int| 0 <= k < entry_ids(miss_part).len() && entry_ids(miss_part)[k] == x;
                    assert(entry_ids(out@).len() == hit_part.len() + miss_part.len());
                    assert(entry_ids(out@)[hit_part.len() + k] == x);
                } else {
                    assert(0 <= i < n && ids@[i] == x);
                    let k = choose|k: int| 0 <= k < entry_ids(hit_part).len() && entry_ids(hit_part)[k] == x;
                    assert(entry_ids(out@)[k] == x);
                }
            }
            if entry_ids(out@).contains(x) {
                let k = choose|k: int| 0 <= k < entry_ids(out@).len() && entry_ids(out@)[k] == x;
                if k < hit_part.len() {
                    assert(entry_ids(hit_part)[k] == x);
                    let i = choose|i: int| 0 <= i < n && #[trigger] ids@[i] == x;
                    assert(ids@[i] == x);
                } else {
                    assert(entry_ids(miss_part)[k - hit_part.len()] == x);
                    assert(miss_part[k - hit_part.len()].0 == misses@[k - hit_part.len()]);
                    assert(misses@.contains(x));
                    assert(is_miss(ids@, hits, x));
                    let i = choose|i: int| 0 <= i < ids@.len() && !hits[i] && ids@[i] == x;
                    assert(ids@[i] == x);
                }
            }
        }
        assert forall|k: int| 0 <= k < out@.len() implies resolved_entry_is(#[trigger] out@[k], ids@, c0, rv) by {
            if k >= hit_part.len() {
                let m = k - hit_part.len();
                assert(out@[k] == miss_part[m]);
                assert(misses@.contains(miss_part[m].0));
            }
        }
        assert forall|k: int| 0 <= k < out@.len() implies (#[trigger] out@[k]).2 ==> !(out@[k].1 is Unknown) by {
            if k >= hit_part.len() {
                assert(out@[k] == miss_part[k - hit_part.len()]);
            }
        }
        assert forall|a: int, b: int| 0 <= a < b < out@.len() implies out@[a].0 != out@[b].0 by {
            if b < hit_part.len() {
                assert(out@[a] == hit_part[a] && out@[b] == hit_part[b]);
            } else if a >= hit_part.len() {
                assert(out@[a] == miss_part[a - hit_part.len()] && out@[b] == miss_part[b - hit_part.len()]);
            } else {
                assert(out@[a] == hit_part[a] && out@[b] == miss_part[b - hit_part.len()]);
                assert(entry_ids(hit_part)[a] == hit_part[a].0);
                assert(entry_ids(hit_part).contains(out@[a].0));
                assert(misses@.contains(miss_part[b - hit_part.len()].0));
            }
        }
    }
    out
}

/// Resolves the owners of a batch of ids through the cache and at most one fetch: `cached[i]` is
/// what the cache answered for `ids[i]`; `fetch`, called once and only when the cache missed some
/// id, reads the `(id, audience)` rows of the distinct misses (`owners_to_fetch`). A failed fetch
/// fails the batch. Every id gets one entry; an id with no row gets `Unknown`, which is never
/// marked for caching (see `resolution_is`).
pub fn resolve_many<E, F: FnOnce(Vec<u128>) -> Result<Vec<(u128, Option<String>)>, E>>(ids: &Vec<u128>,
    cached: Vec<Option<OwnerAudience>>, fetch: F) -> (r: Result<Vec<(u128, OwnerAudience, bool)>, E>)
    requires
        cached@.len() == ids@.len(),
        forall|m: Vec<u128>| call_requires(fetch, (m,)),
    ensures
        (forall|i: int| 0 <= i < ids@.len() ==> (#[trigger] cached@[i]) is Some) ==> (r matches Ok(entries)
            && resolution_is(entries@, ids@, cached@, Seq::empty())),
        !(forall|i: int| 0 <= i < ids@.len() ==> (#[trigger] cached@[i]) is Some) ==> exists|m: Vec<u128>, res: Result<Vec<(u128, Option<String>)>, E>|
            m@ == first_misses(ids@, hits_of(cached@), ids@.len() as int) && #[trigger] call_ensures(fetch, (m,), res) && match res {
                Ok(rows) => (r matches Ok(entries) && resolution_is(entries@, ids@, cached@, audience_rows_view(rows@))),
                Err(e) => r == Err::<Vec<(u128, OwnerAudience, bool)>, E>(e),
            },
{
    let misses = owners_to_fetch(ids, &cached);
    if misses.len() == 0 {
        let rows: Vec<(u128, Option<String>)> = Vec::new();
        assert(audience_rows_view(rows@) =~= Seq::<(u128, Option<Seq<char>>)>::empty());
        return Ok(resolve_owners(ids, cached, rows));
    }
    let ghost m = misses;
    let res = fetch(misses);
    let ghost res_g = res;
    match res {
        Ok(rows) => {
            let out = resolve_owners(ids, cached, rows);
            assert(call_ensures(fetch, (m,), res_g));
            Ok(out)
        },
        Err(e) => {
            assert(call_ensures(fetch, (m,), res_g));
            Err(e)
        },
    }
}

fn ids_contain_entry(v: &Vec<(u128, OwnerAudience, bool)>, x: u128) -> (r: bool)
    ensures
        r == entry_ids(v@).contains(x),
{
    let mut i: usize = 0;
    while i < v.len()
        invariant
            i <= v@.len(),
            forall|k: int| 0 <= k < i ==> v@[k].0 != x,
        decreases v@.len() - i,
    {
        if v[i].0 == x {
            assert(entry_ids(v@)[i as int] == x);
            return true;
        }
        i = i + 1;
    }
    assert forall|k: int| 0 <= k < entry_ids(v@).len() implies entry_ids(v@)[k] != x by {
        assert(entry_ids(v@)[k] == v@[k].0);
    }
    false
}

/// The query resolving a batch of ids of `kind` to their owners' audiences.
pub fn owner_query_sql(kind: IdKind) -> (r: &'static str)
    ensures
        r@ == (match kind {
            IdKind::Process => PROCESS_OWNER_SQL@,
            IdKind::Block => BLOCK_OWNER_SQL@,
            IdKind::ProcessOrStream => PROCESS_OR_STREAM_OWNER_SQL@,
        }),
{
    match kind {
        IdKind::Process => PROCESS_OWNER_SQL,
        IdKind::Block => BLOCK_OWNER_SQL,
        IdKind::ProcessOrStream => PROCESS_OR_STREAM_OWNER_SQL,
    }
}

} // verus!
