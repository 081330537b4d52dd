use vstd::prelude::*;
use crate::error::LakehouseError;
use crate::uuid_text::{parse_uuid, spec_parse_uuid};

verus! {

/// The metadata of one telemetry block, as recorded in the `blocks` table. Ids are the 128-bit
/// values of their UUIDs; times are nanoseconds since the Unix epoch.
#[derive(Clone, Copy, Debug, PartialEq, Eq, Structural)]
pub struct BlockMetadata {
    pub block_id: u128,
    pub stream_id: u128,
    pub process_id: u128,
    pub begin_time: i64,
    pub end_time: i64,
    pub begin_ticks: i64,
    pub end_ticks: i64,
    pub nb_objects: i32,
    pub object_offset: i64,
    pub payload_size: i64,
    pub insert_time: i64,
}

/// A single block of source data for a partition.
#[derive(Clone, Copy, Debug, PartialEq, Eq, Structural)]
pub struct PartitionSourceBlock {
    pub block: BlockMetadata,
}

/// The 8 little-endian bytes of a 64-bit value, as `i64::to_le_bytes` lays them out.
pub open spec fn le_bytes(v: i64) -> Seq<u8> {
    let x = v as u64;
    seq![
        x as u8,
        (x >> 8u64) as u8,
        (x >> 16u64) as u8,
        (x >> 24u64) as u8,
        (x >> 32u64) as u8,
        (x >> 40u64) as u8,
        (x >> 48u64) as u8,
        (x >> 56u64) as u8,
    ]
}

/// The 64-bit value whose little-endian bytes are `b` (which holds 8 bytes), read as an `i64`.
pub open spec fn le_value(b: Seq<u8>) -> i64 {
    ((b[0] as u64) | ((b[1] as u64) << 8u64) | ((b[2] as u64) << 16u64) | ((b[3] as u64) << 24u64)
        | ((b[4] as u64) << 32u64) | ((b[5] as u64) << 40u64) | ((b[6] as u64) << 48u64) | ((
    b[7] as u64) << 56u64)) as i64
}

/// What `hash_to_object_count` gives back for a hash: the count when it holds 8 bytes.
pub open spec fn spec_object_count(hash: Seq<u8>) -> Result<i64, LakehouseError> {
    if hash.len() == 8 {
        Ok(le_value(hash))
    } else {
        Err(LakehouseError::HashNotObjectCount)
    }
}

/// Encodes an object count as the source-data hash a partition records (`i64::to_le_bytes`).
pub fn object_count_to_hash(v: i64) -> (hash: Vec<u8>)
    ensures
        hash@ == le_bytes(v),
{
    let x = v as u64;
    let mut hash: Vec<u8> = Vec::new();
    hash.push(x as u8);
    hash.push((x >> 8u64) as u8);
    hash.push((x >> 16u64) as u8);
    hash.push((x >> 24u64) as u8);
    hash.push((x >> 32u64) as u8);
    hash.push((x >> 40u64) as u8);
    hash.push((x >> 48u64) as u8);
    hash.push((x >> 56u64) as u8);
    assert(hash@ =~= le_bytes(v));
    hash
}

/// Converts a hash (expected to be an i64 as little-endian bytes) to an object count.
pub fn hash_to_object_count(hash: &[u8]) -> (r: Result<i64, LakehouseError>)
    ensures
        r == spec_object_count(hash@),
{
    if hash.len() != 8 {
        return Err(LakehouseError::HashNotObjectCount);
    }
    let v = ((hash[0] as u64) | ((hash[1] as u64) << 8u64) | ((hash[2] as u64) << 16u64) | ((
    hash[3] as u64) << 24u64) | ((hash[4] as u64) << 32u64) | ((hash[5] as u64) << 40u64) | ((
    hash[6] as u64) << 48u64) | ((hash[7] as u64) << 56u64)) as i64;
    Ok(v)
}

/// Reading back the hash of an object count gives the count: the two encodings are inverse.
pub proof fn lemma_object_count_round_trip(v: i64)
    ensures
        spec_object_count(le_bytes(v)) == Ok::<i64, LakehouseError>(v),
{
    let x = v as u64;
    let b = le_bytes(v);
    assert(((x as u8 as u64) | (((x >> 8u64) as u8 as u64) << 8u64) | (((x >> 16u64) as u8 as u64)
        << 16u64) | (((x >> 24u64) as u8 as u64) << 24u64) | (((x >> 32u64) as u8 as u64)
        << 32u64) | (((x >> 40u64) as u8 as u64) << 40u64) | (((x >> 48u64) as u8 as u64)
        << 48u64) | (((x >> 56u64) as u8 as u64) << 56u64)) == x) by (bit_vector);
    assert(((v as u64) as i64) == v) by (bit_vector);
}

/// Blocks held in memory as the source of a partition, with the hash of their object count.
pub struct SourceDataBlocksInMemory {
    pub blocks: Vec<PartitionSourceBlock>,
    pub block_ids_hash: Vec<u8>,
}

/// The largest payload size among `blocks`.
pub open spec fn max_payload(blocks: Seq<PartitionSourceBlock>) -> i64
    recommends
        blocks.len() > 0,
    decreases blocks.len(),
{
    if blocks.len() <= 1 {
        blocks[0].block.payload_size
    } else {
        let m = max_payload(blocks.drop_last());
        if blocks.last().block.payload_size > m {
            blocks.last().block.payload_size
        } else {
            m
        }
    }
}

impl SourceDataBlocksInMemory {
    /// Returns true if there are no blocks in the source.
    pub fn is_empty(&self) -> (r: bool)
        ensures
            r == (self.blocks@.len() == 0),
    {
        self.blocks.len() == 0
    }

    /// Returns the number of blocks in the source.
    pub fn get_nb_blocks(&self) -> (r: i64)
        requires
            self.blocks@.len() <= i64::MAX,
        ensures
            r == self.blocks@.len(),
    {
        self.blocks.len() as i64
    }

    /// Returns the maximum payload size of the blocks in the source.
    pub fn get_max_payload_size(&self) -> (r: i64)
        requires
            self.blocks@.len() > 0,
        ensures
            r == max_payload(self.blocks@),
    {
        let mut max_size = self.blocks[0].block.payload_size;
        let mut i: usize = 1;
        assert(self.blocks@.subrange(0, 1).drop_last().len() == 0);
        while i < self.blocks.len()
            invariant
                1 <= i <= self.blocks@.len(),
                max_size == max_payload(self.blocks@.subrange(0, i as int)),
            decreases self.blocks@.len() - i,
        {
            assert(self.blocks@.subrange(0, i + 1).drop_last() =~= self.blocks@.subrange(
                0,
                i as int,
            ));
            if self.blocks[i].block.payload_size > max_size {
                max_size = self.blocks[i].block.payload_size;
            }
            i = i + 1;
        }
        assert(self.blocks@.subrange(0, i as int) =~= self.blocks@);
        max_size
    }

    /// Returns the hash of the source data.
    pub fn get_source_data_hash(&self) -> (r: Vec<u8>)
        ensures
            r@ == self.block_ids_hash@,
    {
        let mut r: Vec<u8> = Vec::new();
        let mut i: usize = 0;
        while i < self.block_ids_hash.len()
            invariant
                i <= self.block_ids_hash@.len(),
                r@ == self.block_ids_hash@.subrange(0, i as int),
            decreases self.block_ids_hash@.len() - i,
        {
            r.push(self.block_ids_hash[i]);
            assert(r@ =~= self.block_ids_hash@.subrange(0, i + 1));
            i = i + 1;
        }
        assert(r@ =~= self.block_ids_hash@);
        r
    }
}

/// Blocks read through a query of the `blocks` view (`D` is the query's data frame), with the
/// aggregates that query gave: the total object count, the block count and the largest payload.
pub struct SourceDataBlocks<D> {
    pub blocks_dataframe: D,
    pub object_count: i64,
    pub block_count: i64,
    pub max_payload: i64,
}

impl<D> SourceDataBlocks<D> {
    /// Returns true if the blocks hold no object.
    pub fn is_empty(&self) -> (r: bool)
        ensures
            r == (self.object_count == 0),
    {
        self.object_count == 0
    }

    /// Returns the number of blocks.
    pub fn get_nb_blocks(&self) -> (r: i64)
        ensures
            r == self.block_count,
    {
        self.block_count
    }

    /// Returns the largest payload size.
    pub fn get_max_payload_size(&self) -> (r: i64)
        ensures
            r == self.max_payload,
    {
        self.max_payload
    }

    /// Returns the hash of the source data: the object count's little-endian bytes.
    pub fn get_source_data_hash(&self) -> (r: Vec<u8>)
        ensures
            r@ == le_bytes(self.object_count),
    {
        object_count_to_hash(self.object_count)
    }
}

/// A process's parent id as the `processes` view holds it: empty for none, otherwise a UUID.
pub fn parse_parent_process_id(text: &str) -> (r: Result<Option<u128>, LakehouseError>)
    ensures
        text@.len() == 0 ==> r == Ok::<Option<u128>, LakehouseError>(None),
        text@.len() > 0 ==> match spec_parse_uuid(text@) {
            Some(id) => r == Ok::<Option<u128>, LakehouseError>(Some(id)),
            None => r == Err::<Option<u128>, LakehouseError>(LakehouseError::InvalidParentProcessId),
        },
{
    if text.is_empty() {
        Ok(None)
    } else {
        match parse_uuid(text) {
            Some(id) => Ok(Some(id)),
            None => Err(LakehouseError::InvalidParentProcessId),
        }
    }
}

/// The metadata of a block from one row of the blocks query: its stream, process and block ids
/// parsed as UUIDs (in that order; `InvalidRowId` at the first that is not one), its other
/// columns as they are.
pub fn block_metadata_of_row(block_id: &str, stream_id: &str, process_id: &str, begin_time: i64, end_time: i64,
    begin_ticks: i64, end_ticks: i64, nb_objects: i32, object_offset: i64, payload_size: i64, insert_time: i64)
    -> (r: Result<BlockMetadata, LakehouseError>)
    ensures
        match (spec_parse_uuid(stream_id@), spec_parse_uuid(process_id@), spec_parse_uuid(block_id@)) {
            (Some(s), Some(p), Some(b)) => r == Ok::<BlockMetadata, LakehouseError>(BlockMetadata {
                block_id: b,
                stream_id: s,
                process_id: p,
                begin_time,
                end_time,
                begin_ticks,
                end_ticks,
                nb_objects,
                object_offset,
                payload_size,
                insert_time,
            }),
            _ => r == Err::<BlockMetadata, LakehouseError>(LakehouseError::InvalidRowId),
        },
{
    let stream_id = match parse_uuid(stream_id) {
        Some(id) => id,
        None => return Err(LakehouseError::InvalidRowId),
    };
    let process_id = match parse_uuid(process_id) {
        Some(id) => id,
        None => return Err(LakehouseError::InvalidRowId),
    };
    let block_id = match parse_uuid(block_id) {
        Some(id) => id,
        None => return Err(LakehouseError::InvalidRowId),
    };
    Ok(BlockMetadata {
        block_id,
        stream_id,
        process_id,
        begin_time,
        end_time,
        begin_ticks,
        end_ticks,
        nb_objects,
        object_offset,
        payload_size,
        insert_time,
    })
}

/// The stream id of a row of a process's batched blocks query, parsed as a UUID; `InvalidRowId`
/// when it is not one.
pub fn stream_id_of_row(stream_id: &str) -> (r: Result<u128, LakehouseError>)
    ensures
        match spec_parse_uuid(stream_id@) {
            Some(id) => r == Ok::<u128, LakehouseError>(id),
            None => r == Err::<u128, LakehouseError>(LakehouseError::InvalidRowId),
        },
{
    match parse_uuid(stream_id) {
        Some(id) => Ok(id),
        None => Err(LakehouseError::InvalidRowId),
    }
}

/// The block id argument of `parse_block(...)`, parsed as a UUID; otherwise the error
/// `parse_block: '<arg>' is not a valid block id`.
pub fn parse_block_id(arg: &str) -> (r: Result<u128, String>)
    ensures
        match spec_parse_uuid(arg@) {
            Some(id) => r == Ok::<u128, String>(id),
            None => r is Err && r->Err_0@ == "parse_block: '"@ + arg@ + "' is not a valid block id"@,
        },
{
    match parse_uuid(arg) {
        Some(id) => Ok(id),
        None => {
            let mut s = String::from_str("parse_block: '");
            s.append(arg);
            s.append("' is not a valid block id");
            Err(s)
        },
    }
}

} // verus!
