use vstd::prelude::*;
use crate::audience_guard::{ReadScope, scope_audiences};
use crate::error::LakehouseError;
use crate::partition::{copy_strings, strings_contain, strings_view};
use crate::uuid_text::{parse_uuid, spec_hyphenated, spec_parse_uuid, uuid_hyphenated};
use crate::view::str_eq;

verus! {

/// What decides the audience rule of a scanned materialized view: its set, its instance, and
/// whether its file schema has an `audience` field (and whether that field is plain `Utf8`) or a
/// `process_id` field.
pub struct ScanTarget {
    pub view_set_name: String,
    pub view_instance_id: String,
    /// `Some(is_utf8)` when the file schema has an `audience` field.
    pub audience_field: Option<bool>,
    pub has_process_id_field: bool,
}

pub struct ScanTargetView {
    pub view_set_name: Seq<char>,
    pub view_instance_id: Seq<char>,
    pub audience_field: Option<bool>,
    pub has_process_id_field: bool,
}

impl View for ScanTarget {
    type V = ScanTargetView;

    open spec fn view(&self) -> ScanTargetView {
        ScanTargetView {
            view_set_name: self.view_set_name@,
            view_instance_id: self.view_instance_id@,
            audience_field: self.audience_field,
            has_process_id_field: self.has_process_id_field,
        }
    }
}

/// The predicate on a process's resolved audience (`MAX(audience)` over its rows).
pub enum ResolvedPredicate {
    /// `false`: the caller has no audience.
    Never,
    /// `resolved_audience IN (audiences)`.
    AudienceIn(Vec<String>),
}

/// The filter wrapped around a scan.
pub enum ScanPredicate {
    /// `false`: the caller has no audience.
    Never,
    /// `audience IN (audiences)` on the view's own column, cast to `Utf8` unless already so.
    AudienceColumnIn { cast_to_utf8: bool, audiences: Vec<String> },
    /// `CAST(process_id AS Utf8) IN (the processes whose resolved audience passes)`.
    ProcessIdReadable,
    /// `EXISTS` a process with this (canonical) id whose resolved audience passes.
    ProcessReadable(String),
    /// `EXISTS` a stream with this (canonical) id whose process's resolved audience passes.
    StreamReadable(String),
}

pub enum ScanPredicateView {
    Never,
    AudienceColumnIn { cast_to_utf8: bool, audiences: Seq<Seq<char>> },
    ProcessIdReadable,
    ProcessReadable(Seq<char>),
    StreamReadable(Seq<char>),
}

impl View for ScanPredicate {
    type V = ScanPredicateView;

    open spec fn view(&self) -> ScanPredicateView {
        match self {
            ScanPredicate::Never => ScanPredicateView::Never,
            ScanPredicate::AudienceColumnIn { cast_to_utf8, audiences } => ScanPredicateView::AudienceColumnIn {
                cast_to_utf8: *cast_to_utf8,
                audiences: strings_view(audiences@),
            },
            ScanPredicate::ProcessIdReadable => ScanPredicateView::ProcessIdReadable,
            ScanPredicate::ProcessReadable(id) => ScanPredicateView::ProcessReadable(id@),
            ScanPredicate::StreamReadable(id) => ScanPredicateView::StreamReadable(id@),
        }
    }
}

/// The canonical (lowercase, hyphenated) form of an instance id that must be a UUID.
pub open spec fn spec_canonical_id(raw: Seq<char>) -> Result<Seq<char>, LakehouseError> {
    match spec_parse_uuid(raw) {
        Some(u) => Ok(spec_hyphenated(u)),
        None => Err(LakehouseError::InvalidViewInstanceId),
    }
}

/// The audience rule for a scan, first match wins: a public view set gets no predicate; a view
/// with an `audience` column is filtered on it (`false` without audiences); a view with a
/// `process_id` column is semi-joined with the readable processes; `async_events` and
/// `thread_spans` instances are checked through their canonical process or stream id; any other
/// view set is refused rather than left unfiltered.
pub open spec fn spec_predicate_for(auds: Seq<Seq<char>>, public: Seq<Seq<char>>, t: ScanTargetView) -> Result<Option<ScanPredicateView>, LakehouseError> {
    if public.contains(t.view_set_name) {
        Ok(None)
    } else if t.audience_field is Some {
        if auds.len() == 0 {
            Ok(Some(ScanPredicateView::Never))
        } else {
            Ok(Some(ScanPredicateView::AudienceColumnIn { cast_to_utf8: !t.audience_field->Some_0, audiences: auds }))
        }
    } else if t.has_process_id_field {
        Ok(Some(ScanPredicateView::ProcessIdReadable))
    } else if t.view_set_name == "async_events"@ {
        match spec_canonical_id(t.view_instance_id) {
            Ok(id) => Ok(Some(ScanPredicateView::ProcessReadable(id))),
            Err(e) => Err(e),
        }
    } else if t.view_set_name == "thread_spans"@ {
        match spec_canonical_id(t.view_instance_id) {
            Ok(id) => Ok(Some(ScanPredicateView::StreamReadable(id))),
            Err(e) => Err(e),
        }
    } else {
        Err(LakehouseError::NoAudienceRule)
    }
}

pub open spec fn opt_predicate_view(r: Result<Option<ScanPredicate>, LakehouseError>) -> Result<Option<ScanPredicateView>, LakehouseError> {
    match r {
        Ok(Some(p)) => Ok(Some(p@)),
        Ok(None) => Ok(None),
        Err(e) => Err(e),
    }
}

/// Parses an instance id as a UUID and gives its canonical lowercase hyphenated form, the form
/// stored in `process_id`/`stream_id` columns (other spellings of the same UUID would not match).
pub fn canonical_view_instance_id(raw: &str) -> (r: Result<String, LakehouseError>)
    ensures
        match spec_canonical_id(raw@) {
            Ok(id) => r is Ok && r->Ok_0@ == id,
            Err(e) => r == Err::<String, LakehouseError>(e),
        },
{
    match parse_uuid(raw) {
        Some(u) => Ok(uuid_hyphenated(u)),
        None => Err(LakehouseError::InvalidViewInstanceId),
    }
}

/// Injects an audience predicate into every materialized-view scan of a query; `S` is the handle
/// to the raw `processes`/`streams` partitions the predicates resolve through.
pub struct OwnershipRewrite<S> {
    read_scope: ReadScope,
    public_view_sets: Vec<String>,
    processes_source: S,
    streams_source: S,
}

impl<S> OwnershipRewrite<S> {
    pub closed spec fn spec_read_scope(&self) -> ReadScope {
        self.read_scope
    }

    pub closed spec fn spec_public_view_sets(&self) -> Seq<Seq<char>> {
        strings_view(self.public_view_sets@)
    }

    pub closed spec fn spec_processes_source(&self) -> S {
        self.processes_source
    }

    pub closed spec fn spec_streams_source(&self) -> S {
        self.streams_source
    }

    pub fn new(read_scope: ReadScope, public_view_sets: Vec<String>, processes_source: S, streams_source: S) -> (r: Self)
        ensures
            r.spec_read_scope() == read_scope,
            r.spec_public_view_sets() == strings_view(public_view_sets@),
            r.spec_processes_source() == processes_source,
            r.spec_streams_source() == streams_source,
    {
        OwnershipRewrite { read_scope, public_view_sets, processes_source, streams_source }
    }

    /// Whether the rule touches a plan at all: `ReadScope::All` is a true no-op.
    pub fn rewrites(&self) -> (r: bool)
        ensures
            r == !(self.spec_read_scope() is All),
    {
        match &self.read_scope {
            ReadScope::All => false,
            ReadScope::Audiences(_) => true,
        }
    }

    /// The caller's audiences (none under `ReadScope::All`).
    pub fn audiences(&self) -> (r: Vec<String>)
        ensures
            strings_view(r@) == scope_audiences(self.spec_read_scope()),
    {
        match &self.read_scope {
            ReadScope::All => Vec::new(),
            ReadScope::Audiences(a) => copy_strings(a),
        }
    }

    /// `resolved_audience IN (audiences)`, or `false` when the caller has none (fail-closed).
    pub fn resolved_predicate(&self) -> (r: ResolvedPredicate)
        ensures
            scope_audiences(self.spec_read_scope()).len() == 0 ==> r is Never,
            scope_audiences(self.spec_read_scope()).len() > 0 ==> (r matches ResolvedPredicate::AudienceIn(a)
                && strings_view(a@) == scope_audiences(self.spec_read_scope())),
    {
        let audiences = self.audiences();
        if audiences.len() == 0 {
            ResolvedPredicate::Never
        } else {
            ResolvedPredicate::AudienceIn(audiences)
        }
    }

    /// `audience IN (audiences)` on the scan's own column (cast to `Utf8` unless it already is),
    /// `false` when the caller has no audience.
    pub fn audience_column_predicate(&self, column_is_utf8: bool) -> (r: ScanPredicate)
        ensures
            scope_audiences(self.spec_read_scope()).len() == 0 ==> r is Never,
            scope_audiences(self.spec_read_scope()).len() > 0 ==> r@ == (ScanPredicateView::AudienceColumnIn {
                cast_to_utf8: !column_is_utf8,
                audiences: scope_audiences(self.spec_read_scope()),
            }),
    {
        let audiences = self.audiences();
        if audiences.len() == 0 {
            ScanPredicate::Never
        } else {
            ScanPredicate::AudienceColumnIn { cast_to_utf8: !column_is_utf8, audiences }
        }
    }

    /// The predicate to wrap a scan in (see `spec_predicate_for`); `None` for a public view set.
    pub fn predicate_for(&self, target: &ScanTarget) -> (r: Result<Option<ScanPredicate>, LakehouseError>)
        ensures
            opt_predicate_view(r) == spec_predicate_for(scope_audiences(self.spec_read_scope()), self.spec_public_view_sets(), target@),
    {
        if strings_contain(&self.public_view_sets, target.view_set_name.as_str()) {
            return Ok(None);
        }
        if let Some(is_utf8) = target.audience_field {
            return Ok(Some(self.audience_column_predicate(is_utf8)));
        }
        if target.has_process_id_field {
            return Ok(Some(ScanPredicate::ProcessIdReadable));
        }
        if str_eq(target.view_set_name.as_str(), "async_events") {
            return match canonical_view_instance_id(target.view_instance_id.as_str()) {
                Ok(id) => Ok(Some(ScanPredicate::ProcessReadable(id))),
                Err(e) => Err(e),
            };
        }
        if str_eq(target.view_set_name.as_str(), "thread_spans") {
            return match canonical_view_instance_id(target.view_instance_id.as_str()) {
                Ok(id) => Ok(Some(ScanPredicate::StreamReadable(id))),
                Err(e) => Err(e),
            };
        }
        Err(LakehouseError::NoAudienceRule)
    }
}

/// Law: outside the public view sets, no materialized-view scan is left unfiltered for a scoped
/// caller -- every view set either gets a predicate or is refused -- and a caller with no audience
/// gets `false` on every view that carries its own `audience` column.
pub proof fn scoped_scans_fail_closed(auds: Seq<Seq<char>>, public: Seq<Seq<char>>, t: ScanTargetView)
    requires
        !public.contains(t.view_set_name),
    ensures
        spec_predicate_for(auds, public, t) is Ok ==> spec_predicate_for(auds, public, t)->Ok_0 is Some,
        auds.len() == 0 && t.audience_field is Some ==> spec_predicate_for(auds, public, t) == Ok::<Option<ScanPredicateView>, LakehouseError>(Some(ScanPredicateView::Never)),
{
}

} // verus!
