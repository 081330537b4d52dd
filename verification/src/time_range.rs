use vstd::prelude::*;

verus! {

/// A range of time, both ends expressed in nanoseconds since the Unix epoch (UTC).
#[derive(Clone, Copy, Debug, PartialEq, Eq, Structural)]
pub struct TimeRange {
    pub begin: i64,
    pub end: i64,
}

impl TimeRange {
    pub fn new(begin: i64, end: i64) -> (r: TimeRange)
        ensures
            r.begin == begin,
            r.end == end,
    {
        TimeRange { begin, end }
    }

    /// The length of the range in nanoseconds, as an unbounded integer.
    pub open spec fn span(self) -> int {
        self.end - self.begin
    }
}

} // verus!
