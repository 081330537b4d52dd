use vstd::prelude::*;
use crate::error::LakehouseError;
use crate::uuid_text::{parse_uuid, spec_parse_uuid};
use crate::view::str_eq;

verus! {

/// One hour, in nanoseconds: the longest time span of a partition of a process-scoped view.
pub const ONE_HOUR_NANOS: i64 = 3_600_000_000_000;

/// The process an instance id names: `Some(None)` for `global`, `Some(Some(p))` for a UUID,
/// `None` when the id is neither.
pub open spec fn spec_instance_process(view_instance_id: Seq<char>) -> Option<Option<u128>> {
    if view_instance_id == "global"@ {
        Some(None)
    } else {
        match spec_parse_uuid(view_instance_id) {
            Some(p) => Some(Some(p)),
            None => None,
        }
    }
}

/// Reads an instance id: `global`, or the UUID of a process.
fn parse_instance(view_instance_id: &str) -> (r: Result<Option<u128>, LakehouseError>)
    ensures
        match spec_instance_process(view_instance_id@) {
            Some(p) => r == Ok::<Option<u128>, LakehouseError>(p),
            None => r == Err::<Option<u128>, LakehouseError>(LakehouseError::InvalidViewInstanceId),
        },
{
    if str_eq(view_instance_id, "global") {
        Ok(None)
    } else {
        match parse_uuid(view_instance_id) {
            Some(p) => Ok(Some(p)),
            None => Err(LakehouseError::InvalidViewInstanceId),
        }
    }
}

/// A view of log entries, `global` or scoped to one process.
pub struct LogView {
    view_set_name: String,
    view_instance_id: String,
    process_id: Option<u128>,
}

/// A `ViewMaker` for `LogView`s.
pub struct LogViewMaker {}

impl LogViewMaker {
    /// The log view for an instance id (see `LogView::new`).
    pub fn make_view(&self, view_instance_id: &str) -> (r: Result<LogView, LakehouseError>)
        ensures
            match spec_instance_process(view_instance_id@) {
                Some(p) => r is Ok && r->Ok_0.spec_process_id() == p
                    && r->Ok_0.spec_view_instance_id() == view_instance_id@
                    && r->Ok_0.spec_view_set_name() == "log_entries"@,
                None => r == Err::<LogView, LakehouseError>(LakehouseError::InvalidViewInstanceId),
            },
    {
        LogView::new(view_instance_id)
    }
}

impl LogView {
    pub closed spec fn spec_view_set_name(&self) -> Seq<char> {
        self.view_set_name@
    }

    pub closed spec fn spec_view_instance_id(&self) -> Seq<char> {
        self.view_instance_id@
    }

    pub closed spec fn spec_process_id(&self) -> Option<u128> {
        self.process_id
    }

    /// `global`, or the UUID of a process; any other id is refused.
    pub fn new(view_instance_id: &str) -> (r: Result<LogView, LakehouseError>)
        ensures
            match spec_instance_process(view_instance_id@) {
                Some(p) => r is Ok && r->Ok_0.spec_process_id() == p
                    && r->Ok_0.spec_view_instance_id() == view_instance_id@
                    && r->Ok_0.spec_view_set_name() == "log_entries"@,
                None => r == Err::<LogView, LakehouseError>(LakehouseError::InvalidViewInstanceId),
            },
    {
        let process_id = match parse_instance(view_instance_id) {
            Ok(p) => p,
            Err(e) => return Err(e),
        };
        Ok(LogView {
            view_set_name: String::from_str("log_entries"),
            view_instance_id: String::from_str(view_instance_id),
            process_id,
        })
    }

    pub fn get_view_set_name(&self) -> (r: String)
        ensures
            r@ == self.spec_view_set_name(),
    {
        self.view_set_name.clone()
    }

    pub fn get_view_instance_id(&self) -> (r: String)
        ensures
            r@ == self.spec_view_instance_id(),
    {
        self.view_instance_id.clone()
    }

    pub fn process_id(&self) -> (r: Option<u128>)
        ensures
            r == self.spec_process_id(),
    {
        self.process_id
    }

    /// Version of the file schema: `[4]`.
    pub fn get_file_schema_hash(&self) -> (r: Vec<u8>)
        ensures
            r@ == seq![4u8],
    {
        let mut v: Vec<u8> = Vec::new();
        v.push(4);
        v
    }

    /// Batch materialization is for the `global` instance only.
    pub fn check_batch_partition_spec(&self) -> (r: Result<(), LakehouseError>)
        ensures
            r is Ok <==> self.spec_view_instance_id() == "global"@,
            r is Err ==> r->Err_0 == LakehouseError::BatchPartitionSpecUnsupported,
    {
        if str_eq(self.view_instance_id.as_str(), "global") {
            Ok(())
        } else {
            Err(LakehouseError::BatchPartitionSpecUnsupported)
        }
    }

    /// What a just-in-time update works on: nothing for `global` (kept up to date in batches),
    /// otherwise the instance's process.
    pub fn jit_update_process(&self) -> (r: Result<Option<u128>, LakehouseError>)
        ensures
            self.spec_view_instance_id() == "global"@ ==> r == Ok::<Option<u128>, LakehouseError>(None),
            self.spec_view_instance_id() != "global"@ ==> match self.spec_process_id() {
                Some(p) => r == Ok::<Option<u128>, LakehouseError>(Some(p)),
                None => r == Err::<Option<u128>, LakehouseError>(LakehouseError::MissingProcessId),
            },
    {
        if str_eq(self.view_instance_id.as_str(), "global") {
            return Ok(None);
        }
        match self.process_id {
            Some(p) => Ok(Some(p)),
            None => Err(LakehouseError::MissingProcessId),
        }
    }

    /// The `global` instance is updated in group 2000; process instances have no group.
    pub fn get_update_group(&self) -> (r: Option<i32>)
        ensures
            r == (if self.spec_view_instance_id() == "global"@ { Some(2000i32) } else { None }),
    {
        if str_eq(self.view_instance_id.as_str(), "global") {
            Some(2000)
        } else {
            None
        }
    }

    /// The column holding both the earliest and the latest event time of a row: `time`.
    pub fn get_event_time_column_name(&self) -> (r: String)
        ensures
            r@ == "time"@,
    {
        String::from_str("time")
    }

    /// The longest time span of a partition, whatever the strategy: one hour.
    pub fn get_max_partition_time_delta_nanos(&self) -> (r: i64)
        ensures
            r == ONE_HOUR_NANOS,
    {
        ONE_HOUR_NANOS
    }
}

/// A view of measures, `global` or scoped to one process.
pub struct MetricsView {
    view_set_name: String,
    view_instance_id: String,
    process_id: Option<u128>,
}

/// A `ViewMaker` for `MetricsView`s.
pub struct MetricsViewMaker {}

impl MetricsViewMaker {
    /// The metrics view for an instance id (see `MetricsView::new`).
    pub fn make_view(&self, view_instance_id: &str) -> (r: Result<MetricsView, LakehouseError>)
        ensures
            match spec_instance_process(view_instance_id@) {
                Some(p) => r is Ok && r->Ok_0.spec_process_id() == p
                    && r->Ok_0.spec_view_instance_id() == view_instance_id@
                    && r->Ok_0.spec_view_set_name() == "measures"@,
                None => r == Err::<MetricsView, LakehouseError>(LakehouseError::InvalidViewInstanceId),
            },
    {
        MetricsView::new(view_instance_id)
    }
}

impl MetricsView {
    pub closed spec fn spec_view_set_name(&self) -> Seq<char> {
        self.view_set_name@
    }

    pub closed spec fn spec_view_instance_id(&self) -> Seq<char> {
        self.view_instance_id@
    }

    pub closed spec fn spec_process_id(&self) -> Option<u128> {
        self.process_id
    }

    /// `global`, or the UUID of a process; any other id is refused.
    pub fn new(view_instance_id: &str) -> (r: Result<MetricsView, LakehouseError>)
        ensures
            match spec_instance_process(view_instance_id@) {
                Some(p) => r is Ok && r->Ok_0.spec_process_id() == p
                    && r->Ok_0.spec_view_instance_id() == view_instance_id@
                    && r->Ok_0.spec_view_set_name() == "measures"@,
                None => r == Err::<MetricsView, LakehouseError>(LakehouseError::InvalidViewInstanceId),
            },
    {
        let process_id = match parse_instance(view_instance_id) {
            Ok(p) => p,
            Err(e) => return Err(e),
        };
        Ok(MetricsView {
            view_set_name: String::from_str("measures"),
            view_instance_id: String::from_str(view_instance_id),
            process_id,
        })
    }

    pub fn get_view_set_name(&self) -> (r: String)
        ensures
            r@ == self.spec_view_set_name(),
    {
        self.view_set_name.clone()
    }

    pub fn get_view_instance_id(&self) -> (r: String)
        ensures
            r@ == self.spec_view_instance_id(),
    {
        self.view_instance_id.clone()
    }

    /// Version of the file schema: `[0]`.
    pub fn get_file_schema_hash(&self) -> (r: Vec<u8>)
        ensures
            r@ == seq![0u8],
    {
        let mut v: Vec<u8> = Vec::new();
        v.push(0);
        v
    }

    /// Batch materialization is for the `global` instance only.
    pub fn check_batch_partition_spec(&self) -> (r: Result<(), LakehouseError>)
        ensures
            r is Ok <==> self.spec_view_instance_id() == "global"@,
            r is Err ==> r->Err_0 == LakehouseError::BatchPartitionSpecUnsupported,
    {
        if str_eq(self.view_instance_id.as_str(), "global") {
            Ok(())
        } else {
            Err(LakehouseError::BatchPartitionSpecUnsupported)
        }
    }

    /// What a just-in-time update works on: nothing for `global`, otherwise the instance's process.
    pub fn jit_update_process(&self) -> (r: Result<Option<u128>, LakehouseError>)
        ensures
            self.spec_view_instance_id() == "global"@ ==> r == Ok::<Option<u128>, LakehouseError>(None),
            self.spec_view_instance_id() != "global"@ ==> match self.spec_process_id() {
                Some(p) => r == Ok::<Option<u128>, LakehouseError>(Some(p)),
                None => r == Err::<Option<u128>, LakehouseError>(LakehouseError::MissingProcessId),
            },
    {
        if str_eq(self.view_instance_id.as_str(), "global") {
            return Ok(None);
        }
        match self.process_id {
            Some(p) => Ok(Some(p)),
            None => Err(LakehouseError::MissingProcessId),
        }
    }
}

/// A view of the async span events of one process (there is no `global` instance).
pub struct AsyncEventsView {
    view_set_name: String,
    view_instance_id: String,
    process_id: Option<u128>,
}

/// A `ViewMaker` for `AsyncEventsView`s.
pub struct AsyncEventsViewMaker {}

impl AsyncEventsViewMaker {
    /// The async events view for an instance id (see `AsyncEventsView::new`).
    pub fn make_view(&self, view_instance_id: &str) -> (r: Result<AsyncEventsView, LakehouseError>)
        ensures
            view_instance_id@ == "global"@ ==> r == Err::<AsyncEventsView, LakehouseError>(LakehouseError::GlobalInstanceUnsupported),
            view_instance_id@ != "global"@ ==> match spec_parse_uuid(view_instance_id@) {
                Some(p) => r is Ok && r->Ok_0.spec_process_id() == Some(p)
                    && r->Ok_0.spec_view_instance_id() == view_instance_id@
                    && r->Ok_0.spec_view_set_name() == "async_events"@,
                None => r == Err::<AsyncEventsView, LakehouseError>(LakehouseError::InvalidViewInstanceId),
            },
    {
        AsyncEventsView::new(view_instance_id)
    }
}

impl AsyncEventsView {
    pub closed spec fn spec_view_set_name(&self) -> Seq<char> {
        self.view_set_name@
    }

    pub closed spec fn spec_view_instance_id(&self) -> Seq<char> {
        self.view_instance_id@
    }

    pub closed spec fn spec_process_id(&self) -> Option<u128> {
        self.process_id
    }

    /// The UUID of a process; `global` and any other id are refused.
    pub fn new(view_instance_id: &str) -> (r: Result<AsyncEventsView, LakehouseError>)
        ensures
            view_instance_id@ == "global"@ ==> r == Err::<AsyncEventsView, LakehouseError>(LakehouseError::GlobalInstanceUnsupported),
            view_instance_id@ != "global"@ ==> match spec_parse_uuid(view_instance_id@) {
                Some(p) => r is Ok && r->Ok_0.spec_process_id() == Some(p)
                    && r->Ok_0.spec_view_instance_id() == view_instance_id@
                    && r->Ok_0.spec_view_set_name() == "async_events"@,
                None => r == Err::<AsyncEventsView, LakehouseError>(LakehouseError::InvalidViewInstanceId),
            },
    {
        if str_eq(view_instance_id, "global") {
            return Err(LakehouseError::GlobalInstanceUnsupported);
        }
        let process_id = match parse_uuid(view_instance_id) {
            Some(p) => p,
            None => return Err(LakehouseError::InvalidViewInstanceId),
        };
        Ok(AsyncEventsView {
            view_set_name: String::from_str("async_events"),
            view_instance_id: String::from_str(view_instance_id),
            process_id: Some(process_id),
        })
    }

    pub fn get_view_set_name(&self) -> (r: String)
        ensures
            r@ == self.spec_view_set_name(),
    {
        self.view_set_name.clone()
    }

    pub fn get_view_instance_id(&self) -> (r: String)
        ensures
            r@ == self.spec_view_instance_id(),
    {
        self.view_instance_id.clone()
    }

    /// Version of the file schema: `[1]` (the version with the `depth` field).
    pub fn get_file_schema_hash(&self) -> (r: Vec<u8>)
        ensures
            r@ == seq![1u8],
    {
        let mut v: Vec<u8> = Vec::new();
        v.push(1);
        v
    }

    /// Async events are never materialized in batches.
    pub fn check_batch_partition_spec(&self) -> (r: Result<(), LakehouseError>)
        ensures
            r == Err::<(), LakehouseError>(LakehouseError::BatchPartitionSpecUnsupported),
    {
        Err(LakehouseError::BatchPartitionSpecUnsupported)
    }

    /// The process a just-in-time update works on.
    pub fn jit_update_process(&self) -> (r: Result<u128, LakehouseError>)
        ensures
            match self.spec_process_id() {
                Some(p) => r == Ok::<u128, LakehouseError>(p),
                None => r == Err::<u128, LakehouseError>(LakehouseError::MissingProcessId),
            },
    {
        match self.process_id {
            Some(p) => Ok(p),
            None => Err(LakehouseError::MissingProcessId),
        }
    }

    /// Process-scoped views use no update group.
    pub fn get_update_group(&self) -> (r: Option<i32>)
        ensures
            r is None,
    {
        None
    }

    /// The column holding both the earliest and the latest event time of a row: `time`.
    pub fn get_event_time_column_name(&self) -> (r: String)
        ensures
            r@ == "time"@,
    {
        String::from_str("time")
    }

    /// The longest time span of a partition, whatever the strategy: one hour.
    pub fn get_max_partition_time_delta_nanos(&self) -> (r: i64)
        ensures
            r == ONE_HOUR_NANOS,
    {
        ONE_HOUR_NANOS
    }
}

/// A view of the images one process recorded (there is no `global` instance).
pub struct ImagesView {
    view_instance_id: String,
    process_id: u128,
}

/// A `ViewMaker` for `ImagesView`s; their file schema is at version 1.
pub struct ImagesViewMaker {}

impl ImagesViewMaker {
    /// The images view for an instance id (see `ImagesView::new`).
    pub fn make_view(&self, view_instance_id: &str) -> (r: Result<ImagesView, LakehouseError>)
        ensures
            view_instance_id@ == "global"@ ==> r == Err::<ImagesView, LakehouseError>(LakehouseError::GlobalInstanceUnsupported),
            view_instance_id@ != "global"@ ==> match spec_parse_uuid(view_instance_id@) {
                Some(p) => r is Ok && r->Ok_0.spec_process_id() == p && r->Ok_0.spec_view_instance_id() == view_instance_id@,
                None => r == Err::<ImagesView, LakehouseError>(LakehouseError::InvalidViewInstanceId),
            },
    {
        ImagesView::new(view_instance_id)
    }

    pub fn get_schema_hash(&self) -> (r: Vec<u8>)
        ensures
            r@ == seq![1u8],
    {
        let mut v: Vec<u8> = Vec::new();
        v.push(1);
        v
    }
}

impl ImagesView {
    pub closed spec fn spec_view_instance_id(&self) -> Seq<char> {
        self.view_instance_id@
    }

    pub closed spec fn spec_process_id(&self) -> u128 {
        self.process_id
    }

    /// The UUID of a process; `global` and any other id are refused.
    pub fn new(view_instance_id: &str) -> (r: Result<ImagesView, LakehouseError>)
        ensures
            view_instance_id@ == "global"@ ==> r == Err::<ImagesView, LakehouseError>(LakehouseError::GlobalInstanceUnsupported),
            view_instance_id@ != "global"@ ==> match spec_parse_uuid(view_instance_id@) {
                Some(p) => r is Ok && r->Ok_0.spec_process_id() == p && r->Ok_0.spec_view_instance_id() == view_instance_id@,
                None => r == Err::<ImagesView, LakehouseError>(LakehouseError::InvalidViewInstanceId),
            },
    {
        if str_eq(view_instance_id, "global") {
            return Err(LakehouseError::GlobalInstanceUnsupported);
        }
        match parse_uuid(view_instance_id) {
            Some(p) => Ok(ImagesView { view_instance_id: String::from_str(view_instance_id), process_id: p }),
            None => Err(LakehouseError::InvalidViewInstanceId),
        }
    }

    pub fn get_view_set_name(&self) -> (r: String)
        ensures
            r@ == "images"@,
    {
        String::from_str("images")
    }

    pub fn get_view_instance_id(&self) -> (r: String)
        ensures
            r@ == self.spec_view_instance_id(),
    {
        self.view_instance_id.clone()
    }

    /// The process whose images the view holds.
    pub fn process_id(&self) -> (r: u128)
        ensures
            r == self.spec_process_id(),
    {
        self.process_id
    }

    /// Version of the file schema: `[1]`.
    pub fn get_file_schema_hash(&self) -> (r: Vec<u8>)
        ensures
            r@ == seq![1u8],
    {
        let mut v: Vec<u8> = Vec::new();
        v.push(1);
        v
    }

    /// Images are never materialized in batches.
    pub fn check_batch_partition_spec(&self) -> (r: Result<(), LakehouseError>)
        ensures
            r == Err::<(), LakehouseError>(LakehouseError::BatchPartitionSpecUnsupported),
    {
        Err(LakehouseError::BatchPartitionSpecUnsupported)
    }

    /// The stream tag whose blocks a just-in-time update reads.
    pub fn jit_stream_tag(&self) -> (r: &'static str)
        ensures
            r@ == "image"@,
    {
        "image"
    }

    /// Process-scoped views use no update group.
    pub fn get_update_group(&self) -> (r: Option<i32>)
        ensures
            r is None,
    {
        None
    }

    /// The column holding both the earliest and the latest event time of a row: `time`.
    pub fn get_event_time_column_name(&self) -> (r: String)
        ensures
            r@ == "time"@,
    {
        String::from_str("time")
    }

    /// The longest time span of a partition, whatever the strategy: one hour.
    pub fn get_max_partition_time_delta_nanos(&self) -> (r: i64)
        ensures
            r == ONE_HOUR_NANOS,
    {
        ONE_HOUR_NANOS
    }
}

} // verus!
