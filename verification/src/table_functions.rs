use vstd::prelude::*;
use crate::partition::strings_view;
use crate::view::str_eq;

verus! {

/// The `list_query_denials()` table function; `L` is the handle to the deny list it reads.
pub struct ListQueryDenialsTableFunction<L> {
    query_denials: L,
}

impl<L> ListQueryDenialsTableFunction<L> {
    pub closed spec fn spec_query_denials(&self) -> L {
        self.query_denials
    }

    pub fn new(query_denials: L) -> (r: Self)
        ensures
            r.spec_query_denials() == query_denials,
    {
        Self { query_denials }
    }

    /// The deny list handle this function was made with.
    pub fn query_denials(&self) -> (r: &L)
        ensures
            *r == self.spec_query_denials(),
    {
        &self.query_denials
    }
}

/// Keeps the first `limit` rows of a scan, all of them when there is no limit.
pub fn apply_row_limit<T>(rows: &mut Vec<T>, limit: Option<usize>)
    ensures
        match limit {
            Some(n) => final(rows)@ == (if n <= old(rows)@.len() { old(rows)@.subrange(0, n as int) } else { old(rows)@ }),
            None => final(rows)@ == old(rows)@,
        },
{
    if let Some(n) = limit {
        rows.truncate(n);
    }
}

/// How much of the `audience_grants` table `list_audience_grants()` shows a caller.
pub enum GrantVisibility {
    /// Every row: an admin caller.
    All,
    /// Every grant on each `(audience, axis)` pair covered by one of the caller's selectors,
    /// `"*"` included.
    Held(Vec<String>),
}

/// Whether a selector names the caller itself rather than the `"*"` wildcard.
pub open spec fn is_identity_selector(s: Seq<char>) -> bool {
    s != "*"@
}

impl GrantVisibility {
    /// The selectors bound into the held-pair query: `None` for `All` (every row is shown),
    /// otherwise the caller's selectors without `"*"`, in order. A `"*"` grant lets a caller read
    /// but is not a grant it holds; an empty list matches no row.
    pub fn identity_selectors(&self) -> (r: Option<Vec<String>>)
        ensures
            match self {
                GrantVisibility::All => r is None,
                GrantVisibility::Held(s) => r is Some
                    && strings_view(r->Some_0@) == strings_view(s@).filter(|x: Seq<char>| is_identity_selector(x)),
            },
    {
        match self {
            GrantVisibility::All => None,
            GrantVisibility::Held(selectors) => {
                let ghost pred = |x: Seq<char>| is_identity_selector(x);
                let ghost all = strings_view(selectors@);
                let mut out: Vec<String> = Vec::new();
                let mut i: usize = 0;
                while i < selectors.len()
                    invariant
                        i <= selectors@.len(),
                        all == strings_view(selectors@),
                        pred == (|x: Seq<char>| is_identity_selector(x)),
                        strings_view(out@) == all.subrange(0, i as int).filter(pred),
                    decreases selectors@.len() - i,
                {
                    let ghost before = out@;
                    proof {
                        reveal_strlit("*");
                        assert(all.subrange(0, i + 1) =~= all.subrange(0, i as int).push(all[i as int]));
                        all.subrange(0, i as int).lemma_filter_push(all[i as int], pred);
                    }
                    if !str_eq(selectors[i].as_str(), "*") {
                        out.push(selectors[i].clone());
                        assert(strings_view(out@) =~= strings_view(before).push(all[i as int]));
                    }
                    i = i + 1;
                }
                assert(all.subrange(0, selectors@.len() as int) =~= all);
                Some(out)
            },
        }
    }
}

/// Whether `c` has the Unicode `White_Space` property, which `char::is_whitespace` tests: the
/// controls U+0009 to U+000D, the space U+0020, U+0085, the no-break space U+00A0, U+1680, the
/// spaces U+2000 to U+200A, the line and paragraph separators U+2028 and U+2029, U+202F, U+205F
/// and the ideographic space U+3000.
pub open spec fn spec_is_whitespace(c: char) -> bool {
    let n = c as int;
    ||| 0x09 <= n <= 0x0D
    ||| n == 0x20
    ||| n == 0x85
    ||| n == 0xA0
    ||| n == 0x1680
    ||| 0x2000 <= n <= 0x200A
    ||| n == 0x2028
    ||| n == 0x2029
    ||| n == 0x202F
    ||| n == 0x205F
    ||| n == 0x3000
}

fn char_is_whitespace(c: char) -> (r: bool)
    ensures
        r == spec_is_whitespace(c),
{
    let n = c as u32;
    (0x09 <= n && n <= 0x0D) || n == 0x20 || n == 0x85 || n == 0xA0 || n == 0x1680 || (0x2000 <= n && n <= 0x200A) || n == 0x2028
        || n == 0x2029 || n == 0x202F || n == 0x205F || n == 0x3000
}

/// Whether a text is blank: nothing is left once its leading and trailing whitespace is trimmed,
/// that is every character of it is whitespace.
pub open spec fn is_blank(s: Seq<char>) -> bool {
    forall|i: int| 0 <= i < s.len() ==> spec_is_whitespace(#[trigger] s[i])
}

fn blank(s: &str) -> (r: bool)
    ensures
        r == is_blank(s@),
{
    let n = s.unicode_len();
    let mut i: usize = 0;
    while i < n
        invariant
            i <= n,
            n == s@.len(),
            forall|j: int| 0 <= j < i ==> spec_is_whitespace(#[trigger] s@[j]),
        decreases n - i,
    {
        let c = s.get_char(i);
        if !char_is_whitespace(c) {
            return false;
        }
        i = i + 1;
    }
    true
}

/// Why `deny_queries(match_expr, reason)` refuses a call before compiling its expression.
#[derive(Clone, Copy, Debug, PartialEq, Eq, Structural)]
pub enum DenyQueriesRefusal {
    /// No first argument.
    MissingMatchExpr,
    /// No second argument.
    MissingReason,
    /// The reason is blank.
    EmptyReason,
    /// The session carries no authenticated caller identity.
    NoCallerIdentity,
    /// The deny list already holds the maximum number of rules.
    AtRuleCap,
}

/// A validated request to add a rule: its expression, reason, and author.
pub struct DenyRequest {
    pub match_expr: String,
    pub reason: String,
    pub created_by: String,
}

/// The `deny_queries(match_expr, reason)` table function; `L` is the handle to the deny list, and
/// `identity` the caller identity captured when it was registered.
pub struct DenyQueriesTableFunction<L> {
    query_denials: L,
    identity: Option<String>,
}

impl<L> DenyQueriesTableFunction<L> {
    pub closed spec fn spec_query_denials(&self) -> L {
        self.query_denials
    }

    pub closed spec fn spec_identity(&self) -> Option<Seq<char>> {
        match self.identity {
            Some(s) => Some(s@),
            None => None,
        }
    }

    pub fn new(query_denials: L, identity: Option<String>) -> (r: Self)
        ensures
            r.spec_query_denials() == query_denials,
            r.spec_identity() == (match identity {
                Some(s) => Some(s@),
                None => None::<Seq<char>>,
            }),
    {
        Self { query_denials, identity }
    }

    /// The deny list handle this function was made with.
    pub fn query_denials(&self) -> (r: &L)
        ensures
            *r == self.spec_query_denials(),
    {
        &self.query_denials
    }

    /// The checks run, in order, before the expression is compiled: both arguments present, a
    /// reason that is not blank, a caller identity, and fewer rules than `cap`.
    pub fn validate(&self, match_expr: Option<String>, reason: Option<String>, rule_count: usize, cap: usize) -> (r: Result<DenyRequest, DenyQueriesRefusal>)
        ensures
            match_expr is None ==> r == Err::<DenyRequest, DenyQueriesRefusal>(DenyQueriesRefusal::MissingMatchExpr),
            match_expr is Some && reason is None ==> r == Err::<DenyRequest, DenyQueriesRefusal>(DenyQueriesRefusal::MissingReason),
            match_expr is Some && reason is Some && is_blank(reason->Some_0@) ==> r == Err::<DenyRequest, DenyQueriesRefusal>(DenyQueriesRefusal::EmptyReason),
            match_expr is Some && reason is Some && !is_blank(reason->Some_0@) && self.spec_identity() is None
                ==> r == Err::<DenyRequest, DenyQueriesRefusal>(DenyQueriesRefusal::NoCallerIdentity),
            match_expr is Some && reason is Some && !is_blank(reason->Some_0@) && self.spec_identity() is Some && rule_count >= cap
                ==> r == Err::<DenyRequest, DenyQueriesRefusal>(DenyQueriesRefusal::AtRuleCap),
            r matches Ok(req) ==> {
                &&& match_expr is Some && req.match_expr@ == match_expr->Some_0@
                &&& reason is Some && req.reason@ == reason->Some_0@ && !is_blank(reason->Some_0@)
                &&& self.spec_identity() == Some(req.created_by@)
                &&& rule_count < cap
            },
            match_expr is Some && reason is Some && !is_blank(reason->Some_0@) && self.spec_identity() is Some && rule_count < cap ==> r is Ok,
    {
        let m = match match_expr {
            Some(m) => m,
            None => return Err(DenyQueriesRefusal::MissingMatchExpr),
        };
        let t = match reason {
            Some(t) => t,
            None => return Err(DenyQueriesRefusal::MissingReason),
        };
        if blank(t.as_str()) {
            return Err(DenyQueriesRefusal::EmptyReason);
        }
        let created_by = match &self.identity {
            Some(id) => id.clone(),
            None => return Err(DenyQueriesRefusal::NoCallerIdentity),
        };
        if rule_count >= cap {
            return Err(DenyQueriesRefusal::AtRuleCap);
        }
        Ok(DenyRequest { match_expr: m, reason: t, created_by })
    }
}

} // verus!
