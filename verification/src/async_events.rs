use vstd::prelude::*;
use crate::row_times::{is_time_range_of, time_range};
use crate::uuid_text::{spec_hyphenated, uuid_hyphenated};

verus! {

/// Where an instrumented scope is declared.
pub struct ScopeDesc {
    pub name: String,
    pub filename: String,
    pub target: String,
    pub line: u32,
}

/// One row of the `async_events` view: the beginning or the end of an async span.
pub struct AsyncEventRecord {
    pub stream_id: String,
    pub block_id: String,
    pub time: i64,
    pub event_type: String,
    pub span_id: i64,
    pub parent_span_id: i64,
    pub name: String,
    pub filename: String,
    pub target: String,
    pub line: u32,
}

pub struct AsyncEventRecordView {
    pub stream_id: Seq<char>,
    pub block_id: Seq<char>,
    pub time: i64,
    pub event_type: Seq<char>,
    pub span_id: i64,
    pub parent_span_id: i64,
    pub name: Seq<char>,
    pub filename: Seq<char>,
    pub target: Seq<char>,
    pub line: u32,
}

impl View for AsyncEventRecord {
    type V = AsyncEventRecordView;

    open spec fn view(&self) -> AsyncEventRecordView {
        AsyncEventRecordView {
            stream_id: self.stream_id@,
            block_id: self.block_id@,
            time: self.time,
            event_type: self.event_type@,
            span_id: self.span_id,
            parent_span_id: self.parent_span_id,
            name: self.name@,
            filename: self.filename@,
            target: self.target@,
            line: self.line,
        }
    }
}

pub open spec fn records_view(s: Seq<AsyncEventRecord>) -> Seq<AsyncEventRecordView> {
    s.map_values(|r: AsyncEventRecord| r@)
}

pub open spec fn record_times(s: Seq<AsyncEventRecord>) -> Seq<i64> {
    s.map_values(|r: AsyncEventRecord| r.time)
}

/// The row an async scope event gives in a block of a stream.
pub open spec fn spec_event_record(stream_id: Seq<char>, block_id: Seq<char>, event_type: Seq<char>, scope: ScopeDesc, time: i64, span_id: i64, parent_span_id: i64) -> AsyncEventRecordView {
    AsyncEventRecordView {
        stream_id,
        block_id,
        time,
        event_type,
        span_id,
        parent_span_id,
        name: scope.name@,
        filename: scope.filename@,
        target: scope.target@,
        line: scope.line,
    }
}

/// Collects the async events of one block, as rows.
pub struct AsyncEventCollector {
    pub records: Vec<AsyncEventRecord>,
    pub stream_id: String,
    pub block_id: String,
}

impl AsyncEventCollector {
    /// An empty collector for the events of block `block_id` of stream `stream_id`.
    pub fn new(capacity: usize, stream_id: String, block_id: String) -> (r: AsyncEventCollector)
        ensures
            r.records@.len() == 0,
            r.stream_id@ == stream_id@,
            r.block_id@ == block_id@,
    {
        AsyncEventCollector { records: Vec::with_capacity(capacity), stream_id, block_id }
    }

    fn push_event(&mut self, event_type: &str, scope: ScopeDesc, time: i64, span_id: i64, parent_span_id: i64)
        ensures
            final(self).stream_id == old(self).stream_id,
            final(self).block_id == old(self).block_id,
            records_view(final(self).records@) == records_view(old(self).records@).push(
                spec_event_record(old(self).stream_id@, old(self).block_id@, event_type@, scope, time, span_id, parent_span_id)),
            record_times(final(self).records@) == record_times(old(self).records@).push(time),
    {
        let ghost sc = scope;
        let record = AsyncEventRecord {
            stream_id: self.stream_id.clone(),
            block_id: self.block_id.clone(),
            time,
            event_type: String::from_str(event_type),
            span_id,
            parent_span_id,
            name: scope.name,
            filename: scope.filename,
            target: scope.target,
            line: scope.line,
        };
        let ghost before = self.records@;
        self.records.push(record);
        assert(records_view(self.records@) =~= records_view(before).push(record@));
        assert(record_times(self.records@) =~= record_times(before).push(time));
    }

    /// Records the beginning of an async span, `time` being its tick count converted to
    /// nanoseconds; always asks for the next event.
    pub fn on_begin_async_scope(&mut self, scope: ScopeDesc, time: i64, span_id: i64, parent_span_id: i64) -> (r: bool)
        ensures
            r,
            final(self).stream_id == old(self).stream_id,
            final(self).block_id == old(self).block_id,
            records_view(final(self).records@) == records_view(old(self).records@).push(
                spec_event_record(old(self).stream_id@, old(self).block_id@, "begin"@, scope, time, span_id, parent_span_id)),
            record_times(final(self).records@) == record_times(old(self).records@).push(time),
    {
        self.push_event("begin", scope, time, span_id, parent_span_id);
        true
    }

    /// Records the end of an async span, `time` being its tick count converted to nanoseconds;
    /// always asks for the next event.
    pub fn on_end_async_scope(&mut self, scope: ScopeDesc, time: i64, span_id: i64, parent_span_id: i64) -> (r: bool)
        ensures
            r,
            final(self).stream_id == old(self).stream_id,
            final(self).block_id == old(self).block_id,
            records_view(final(self).records@) == records_view(old(self).records@).push(
                spec_event_record(old(self).stream_id@, old(self).block_id@, "end"@, scope, time, span_id, parent_span_id)),
            record_times(final(self).records@) == record_times(old(self).records@).push(time),
    {
        self.push_event("end", scope, time, span_id, parent_span_id);
        true
    }

    /// The earliest and latest time of the collected rows, `None` when there is none.
    pub fn get_time_range(&self) -> (r: Option<(i64, i64)>)
        ensures
            r is None <==> self.records@.len() == 0,
            r matches Some((lo, hi)) ==> is_time_range_of(record_times(self.records@), lo, hi),
    {
        let mut times: Vec<i64> = Vec::new();
        let mut i: usize = 0;
        while i < self.records.len()
            invariant
                i <= self.records@.len(),
                times@ == record_times(self.records@.subrange(0, i as int)),
            decreases self.records@.len() - i,
        {
            times.push(self.records[i].time);
            assert(record_times(self.records@.subrange(0, i + 1)) =~= record_times(self.records@.subrange(0, i as int)).push(self.records@[i as int].time));
            i = i + 1;
        }
        assert(self.records@.subrange(0, self.records@.len() as int) =~= self.records@);
        time_range(&times)
    }
}

/// The rows of a block with their time range.
pub struct AsyncEventRowSet {
    pub min_time: i64,
    pub max_time: i64,
    pub rows: Vec<AsyncEventRecord>,
}

/// A `BlockProcessor` for async event blocks.
pub struct AsyncEventsBlockProcessor {}

impl AsyncEventsBlockProcessor {
    /// The collector for one block: sized by the block's object count (an estimate: a block may
    /// hold other events), its rows tagged with the stream and block ids in hyphenated form.
    pub fn start_block(&self, nb_objects: usize, stream_id: u128, block_id: u128) -> (r: AsyncEventCollector)
        ensures
            r.records@.len() == 0,
            r.stream_id@ == spec_hyphenated(stream_id),
            r.block_id@ == spec_hyphenated(block_id),
    {
        AsyncEventCollector::new(nb_objects, uuid_hyphenated(stream_id), uuid_hyphenated(block_id))
    }

    /// The block's rows with their time range, or `None` when the block held no async event.
    pub fn finish_block(&self, collector: AsyncEventCollector) -> (r: Option<AsyncEventRowSet>)
        ensures
            r is None <==> collector.records@.len() == 0,
            r matches Some(rs) ==> records_view(rs.rows@) == records_view(collector.records@)
                && is_time_range_of(record_times(collector.records@), rs.min_time, rs.max_time),
    {
        match collector.get_time_range() {
            Some((lo, hi)) => Some(AsyncEventRowSet { min_time: lo, max_time: hi, rows: collector.records }),
            None => None,
        }
    }
}

/// A `BlockProcessor` for metrics blocks.
pub struct MetricsBlockProcessor {}

impl MetricsBlockProcessor {
    /// The time range of a block's measures, `None` when it held none (and gives no rows).
    pub fn measures_time_range(&self, times: &Vec<i64>) -> (r: Option<(i64, i64)>)
        ensures
            r is None <==> times@.len() == 0,
            r matches Some((lo, hi)) ==> is_time_range_of(times@, lo, hi),
    {
        time_range(times)
    }
}

} // verus!
