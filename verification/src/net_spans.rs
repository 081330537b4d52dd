use vstd::prelude::*;
use crate::error::LakehouseError;
use crate::jit_grouping::{BlockOrder, max_insert, min_insert};
use crate::jit_partitions::{JitPartitionConfig, blocks_insert_time_range, chains_from, group_contiguous_block_chains, metadata_of};
use crate::partition_source_data::{BlockMetadata, SourceDataBlocksInMemory, hash_to_object_count, spec_object_count};
use crate::row_times::{is_time_range_of, time_range};
use crate::time_range::TimeRange;
use crate::uuid_text::{parse_uuid, spec_parse_uuid};
use crate::view::str_eq;

verus! {

/// Version of the `net_spans` file schema.
pub const NET_SPANS_SCHEMA_VERSION: u8 = 2;

/// A view of the network bandwidth spans of one process (there is no `global` instance).
pub struct NetSpansView {
    view_instance_id: String,
    process_id: u128,
}

/// A `ViewMaker` for `NetSpansView`s; `F` is the handle to the view factory its views read.
pub struct NetSpansViewMaker<F> {
    view_factory: F,
}

impl<F> NetSpansViewMaker<F> {
    pub closed spec fn spec_view_factory(&self) -> F {
        self.view_factory
    }

    pub fn new(view_factory: F) -> (r: Self)
        ensures
            r.spec_view_factory() == view_factory,
    {
        NetSpansViewMaker { view_factory }
    }

    /// The view factory handle this maker was made with.
    pub fn view_factory(&self) -> (r: &F)
        ensures
            *r == self.spec_view_factory(),
    {
        &self.view_factory
    }

    /// The net spans view of an instance id (see `NetSpansView::new`).
    pub fn make_view(&self, view_instance_id: &str) -> (r: Result<NetSpansView, LakehouseError>)
        ensures
            view_instance_id@ == "global"@ ==> r == Err::<NetSpansView, LakehouseError>(LakehouseError::GlobalInstanceUnsupported),
            view_instance_id@ != "global"@ ==> match spec_parse_uuid(view_instance_id@) {
                Some(p) => r is Ok && r->Ok_0.spec_process_id() == p && r->Ok_0.spec_view_instance_id() == view_instance_id@,
                None => r == Err::<NetSpansView, LakehouseError>(LakehouseError::InvalidViewInstanceId),
            },
    {
        NetSpansView::new(view_instance_id)
    }

    /// Version of the file schema: `[2]`.
    pub fn get_schema_hash(&self) -> (r: Vec<u8>)
        ensures
            r@ == seq![NET_SPANS_SCHEMA_VERSION],
    {
        let mut v: Vec<u8> = Vec::new();
        v.push(NET_SPANS_SCHEMA_VERSION);
        v
    }
}

impl NetSpansView {
    pub closed spec fn spec_view_instance_id(&self) -> Seq<char> {
        self.view_instance_id@
    }

    pub closed spec fn spec_process_id(&self) -> u128 {
        self.process_id
    }

    /// The UUID of a process; `global` and any other id are refused.
    pub fn new(view_instance_id: &str) -> (r: Result<NetSpansView, LakehouseError>)
        ensures
            view_instance_id@ == "global"@ ==> r == Err::<NetSpansView, LakehouseError>(LakehouseError::GlobalInstanceUnsupported),
            view_instance_id@ != "global"@ ==> match spec_parse_uuid(view_instance_id@) {
                Some(p) => r is Ok && r->Ok_0.spec_process_id() == p && r->Ok_0.spec_view_instance_id() == view_instance_id@,
                None => r == Err::<NetSpansView, LakehouseError>(LakehouseError::InvalidViewInstanceId),
            },
    {
        if str_eq(view_instance_id, "global") {
            return Err(LakehouseError::GlobalInstanceUnsupported);
        }
        match parse_uuid(view_instance_id) {
            Some(p) => Ok(NetSpansView { view_instance_id: String::from_str(view_instance_id), process_id: p }),
            None => Err(LakehouseError::InvalidViewInstanceId),
        }
    }

    pub fn get_view_set_name(&self) -> (r: String)
        ensures
            r@ == "net_spans"@,
    {
        String::from_str("net_spans")
    }

    pub fn get_view_instance_id(&self) -> (r: String)
        ensures
            r@ == self.spec_view_instance_id(),
    {
        self.view_instance_id.clone()
    }

    pub fn process_id(&self) -> (r: u128)
        ensures
            r == self.spec_process_id(),
    {
        self.process_id
    }

    /// Version of the file schema: `[2]`.
    pub fn get_file_schema_hash(&self) -> (r: Vec<u8>)
        ensures
            r@ == seq![NET_SPANS_SCHEMA_VERSION],
    {
        let mut v: Vec<u8> = Vec::new();
        v.push(NET_SPANS_SCHEMA_VERSION);
        v
    }

    /// Net spans are never materialized in batches.
    pub fn check_batch_partition_spec(&self) -> (r: Result<(), LakehouseError>)
        ensures
            r == Err::<(), LakehouseError>(LakehouseError::BatchPartitionSpecUnsupported),
    {
        Err(LakehouseError::BatchPartitionSpecUnsupported)
    }

    /// Process-scoped views use no update group.
    pub fn get_update_group(&self) -> (r: Option<i32>)
        ensures
            r is None,
    {
        None
    }

    /// The columns holding a row's earliest and latest event time.
    pub fn get_time_bounds(&self) -> (r: (String, String))
        ensures
            r.0@ == "begin_time"@,
            r.1@ == "end_time"@,
    {
        (String::from_str("begin_time"), String::from_str("end_time"))
    }

    /// Net span trees cross blocks, so the just-in-time partitions follow event order.
    pub fn jit_config(&self) -> (r: JitPartitionConfig)
        ensures
            r.block_order == BlockOrder::EventTime,
            r.max_nb_objects == 20 * 1024 * 1024,
            r.max_insert_time_slice == 3_600_000_000_000,
            r.target_rows_per_query == 250_000,
    {
        let d = JitPartitionConfig::default();
        JitPartitionConfig { block_order: BlockOrder::EventTime, ..d }
    }
}

/// What writing a net spans partition works from: the number of events its hash records, its
/// insert range, its one stream, its unbroken chains of blocks (one span tree each), and the tick
/// range of its blocks (the rows' time range when no span is found).
pub struct NetSpansWritePlan {
    pub nb_events: i64,
    pub insert_range: TimeRange,
    pub stream_id: u128,
    pub chains: Vec<Vec<BlockMetadata>>,
    pub min_begin_ticks: i64,
    pub max_end_ticks: i64,
}

/// The begin ticks of blocks.
pub open spec fn begin_ticks_of(s: Seq<crate::partition_source_data::PartitionSourceBlock>) -> Seq<i64> {
    s.map_values(|b: crate::partition_source_data::PartitionSourceBlock| b.block.begin_ticks)
}

/// The end ticks of blocks.
pub open spec fn end_ticks_of(s: Seq<crate::partition_source_data::PartitionSourceBlock>) -> Seq<i64> {
    s.map_values(|b: crate::partition_source_data::PartitionSourceBlock| b.block.end_ticks)
}

/// Whether all blocks of a partition belong to one stream.
pub open spec fn one_stream(spec: SourceDataBlocksInMemory) -> bool {
    forall|k: int| 0 <= k < spec.blocks@.len() ==> (#[trigger] spec.blocks@[k]).block.stream_id == spec.blocks@[0].block.stream_id
}

/// Checks and prepares writing a net spans partition: its hash must be an object count, it must
/// hold blocks, and all of one stream.
pub fn prepare_net_spans_write(spec: &SourceDataBlocksInMemory) -> (r: Result<NetSpansWritePlan, LakehouseError>)
    ensures
        spec_object_count(spec.block_ids_hash@) is Err ==> r == Err::<NetSpansWritePlan, LakehouseError>(LakehouseError::HashNotObjectCount),
        spec_object_count(spec.block_ids_hash@) is Ok && spec.blocks@.len() == 0 ==> r == Err::<NetSpansWritePlan, LakehouseError>(LakehouseError::EmptyBlockList),
        spec_object_count(spec.block_ids_hash@) is Ok && spec.blocks@.len() > 0 && !one_stream(*spec) ==> r == Err::<NetSpansWritePlan, LakehouseError>(LakehouseError::MultipleStreams),
        spec_object_count(spec.block_ids_hash@) is Ok && spec.blocks@.len() > 0 && one_stream(*spec) ==> (r matches Ok(plan) && {
            &&& plan.nb_events == spec_object_count(spec.block_ids_hash@)->Ok_0
            &&& plan.insert_range == TimeRange { begin: min_insert(spec.blocks@, 0, spec.blocks@.len() as int), end: max_insert(spec.blocks@, 0, spec.blocks@.len() as int) }
            &&& plan.stream_id == spec.blocks@[0].block.stream_id
            &&& plan.chains@.len() == chains_from(spec.blocks@, 0).len()
            &&& forall|c: int| 0 <= c < plan.chains@.len() ==> (#[trigger] plan.chains@[c])@ == metadata_of(spec.blocks@, chains_from(spec.blocks@, 0)[c].0, chains_from(spec.blocks@, 0)[c].1)
            &&& begin_ticks_of(spec.blocks@).contains(plan.min_begin_ticks)
            &&& forall|k: int| 0 <= k < spec.blocks@.len() ==> plan.min_begin_ticks <= (#[trigger] spec.blocks@[k]).block.begin_ticks
            &&& end_ticks_of(spec.blocks@).contains(plan.max_end_ticks)
            &&& forall|k: int| 0 <= k < spec.blocks@.len() ==> (#[trigger] spec.blocks@[k]).block.end_ticks <= plan.max_end_ticks
        }),
{
    let nb_events = match hash_to_object_count(spec.block_ids_hash.as_slice()) {
        Ok(n) => n,
        Err(e) => return Err(e),
    };
    if spec.blocks.len() == 0 {
        return Err(LakehouseError::EmptyBlockList);
    }
    let insert_range = match blocks_insert_time_range(&spec.blocks) {
        Ok(r) => r,
        Err(e) => return Err(e),
    };
    let stream_id = spec.blocks[0].block.stream_id;
    let mut begins: Vec<i64> = Vec::new();
    let mut ends: Vec<i64> = Vec::new();
    let mut i: usize = 0;
    while i < spec.blocks.len()
        invariant
            i <= spec.blocks@.len(),
            spec.blocks@.len() > 0,
            spec_object_count(spec.block_ids_hash@) == Ok::<i64, LakehouseError>(nb_events),
            stream_id == spec.blocks@[0].block.stream_id,
            forall|k: int| 0 <= k < i ==> (#[trigger] spec.blocks@[k]).block.stream_id == stream_id,
            begins@ == begin_ticks_of(spec.blocks@.take(i as int)),
            ends@ == end_ticks_of(spec.blocks@.take(i as int)),
        decreases spec.blocks@.len() - i,
    {
        if spec.blocks[i].block.stream_id != stream_id {
            assert(!one_stream(*spec));
            return Err(LakehouseError::MultipleStreams);
        }
        begins.push(spec.blocks[i].block.begin_ticks);
        ends.push(spec.blocks[i].block.end_ticks);
        assert(spec.blocks@.take(i + 1) =~= spec.blocks@.take(i as int).push(spec.blocks@[i as int]));
        assert(begin_ticks_of(spec.blocks@.take(i + 1)) =~= begin_ticks_of(spec.blocks@.take(i as int)).push(spec.blocks@[i as int].block.begin_ticks));
        assert(end_ticks_of(spec.blocks@.take(i + 1)) =~= end_ticks_of(spec.blocks@.take(i as int)).push(spec.blocks@[i as int].block.end_ticks));
        i = i + 1;
    }
    assert(spec.blocks@.take(spec.blocks@.len() as int) =~= spec.blocks@);
    let (min_begin_ticks, _) = match time_range(&begins) {
        Some(r) => r,
        None => return Err(LakehouseError::EmptyBlockList),
    };
    let (_, max_end_ticks) = match time_range(&ends) {
        Some(r) => r,
        None => return Err(LakehouseError::EmptyBlockList),
    };
    proof {
        assert forall|k: int| 0 <= k < spec.blocks@.len() implies min_begin_ticks <= (#[trigger] spec.blocks@[k]).block.begin_ticks
            && spec.blocks@[k].block.end_ticks <= max_end_ticks by {
            assert(begins@[k] == spec.blocks@[k].block.begin_ticks);
            assert(ends@[k] == spec.blocks@[k].block.end_ticks);
        }
    }
    let chains = group_contiguous_block_chains(&spec.blocks);
    Ok(NetSpansWritePlan { nb_events, insert_range, stream_id, chains, min_begin_ticks, max_end_ticks })
}

} // verus!
