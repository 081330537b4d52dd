use vstd::prelude::*;

verus! {

/// The RFC 3339 text chrono gives for an instant in UTC.
pub uninterp spec fn spec_rfc3339(nanos: i64) -> Seq<char>;

/// `chrono::DateTime::<Utc>::from_timestamp_nanos(nanos).to_rfc3339()`: the text depends on the
/// instant alone (always in UTC); the contract names it.
#[verifier::external_body]
pub(crate) fn rfc3339(nanos: i64) -> (r: String)
    ensures
        r@ == spec_rfc3339(nanos),
{
    chrono::DateTime::from_timestamp_nanos(nanos).to_rfc3339()
}

} // verus!
