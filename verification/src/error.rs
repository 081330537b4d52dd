use vstd::prelude::*;

verus! {

/// Every way an operation of this library can refuse its input.
#[derive(Clone, Copy, Debug, PartialEq, Eq, Structural)]
pub enum LakehouseError {
    /// A source-data hash was not the 8 little-endian bytes of an object count.
    HashNotObjectCount,
    /// A partition spec, or a list of blocks, held no block.
    EmptyBlockList,
    /// A non-empty partition carries no event time range.
    NonEmptyWithoutEventTimeRange,
    /// A non-empty partition carries no file path.
    NonEmptyWithoutFilePath,
    /// An empty partition carries an event time range.
    EmptyWithEventTimeRange,
    /// An empty partition carries a file path.
    EmptyWithFilePath,
    /// A partition reports a negative row count.
    NegativeRowCount,
    /// A partition without an event time range carries a sort-key bound.
    SortKeyWithoutEventTimeRange,
    /// An existing partition only partly overlaps the requested range.
    PartialOverlap,
    /// The partition time delta does not tile the requested range exactly.
    DeltaDoesNotTileRange,
    /// A partition to merge was written with another file schema.
    IncompatibleFileSchema,
    /// A time value could not be truncated to the requested slice.
    TimeTruncation,
    /// The query range reaches outside the range the partition cache was built for.
    RangeOutsideCache,
    /// Adjacent partitions of a declared ordering overlap.
    OrderingViolated,
    /// No audience rule is defined for the view set.
    NoAudienceRule,
    /// A view instance id is not a valid UUID.
    InvalidViewInstanceId,
    /// The view set has no `global` instance.
    GlobalInstanceUnsupported,
    /// The view instance cannot be materialized in batches.
    BatchPartitionSpecUnsupported,
    /// A process-scoped view instance carries no process id.
    MissingProcessId,
    /// A partition of a one-stream view holds blocks of several streams.
    MultipleStreams,
    /// A process's recorded parent id is not a UUID.
    InvalidParentProcessId,
    /// A set of partitions to merge is empty.
    EmptyPartitionSet,
    /// A physical plan that must run as one partition has several.
    PlanNotSinglePartition,
    /// A physical plan's output ordering does not satisfy the declared ordering.
    OrderingNotSatisfied,
    /// A declared sort column is not a field of the schema.
    UnknownColumn,
    /// A file is too large for the cache to weigh.
    FileTooLargeToCache,
    /// A block payload does not decode as the message its stream format names.
    CorruptPayload,
    /// A leaf message of a block payload could not be serialized as OTLP/JSON.
    UnserializableLeaf,
    /// An id read from a row of the blocks query is not a UUID.
    InvalidRowId,
}

} // verus!
