use vstd::prelude::*;
use crate::partition::strings_view;
use crate::partition_source_data::{le_bytes, object_count_to_hash};
use crate::view::str_eq;
use crate::time_range::TimeRange;
use crate::time_text::{rfc3339, spec_rfc3339};
use crate::view::ViewMetadata;

verus! {

/// Flush threshold on the estimated byte size of a pending chunk of metadata rows.
pub const SOURCE_BYTES_PER_BATCH: usize = 8 * 1024 * 1024;

/// How many payload bytes a block partition tries to download at once.
pub const PAYLOAD_DOWNLOAD_BUDGET: usize = 100 * 1024 * 1024;

/// `v` clamped to `[lo, hi]`.
pub open spec fn clamp(v: int, lo: int, hi: int) -> int {
    if v < lo { lo } else if v > hi { hi } else { v }
}

/// How many blocks a block partition processes concurrently: as many of its largest payload as
/// fit in the download budget, at least 1 and at most 64.
pub fn download_concurrency(max_payload_size: i64) -> (r: usize)
    requires
        0 < max_payload_size <= usize::MAX,
    ensures
        r == clamp(PAYLOAD_DOWNLOAD_BUDGET as int / max_payload_size as int, 1, 64),
{
    let n = PAYLOAD_DOWNLOAD_BUDGET / (max_payload_size as usize);
    if n < 1 {
        1
    } else if n > 64 {
        64
    } else {
        n
    }
}

/// The description a partition write logs: `[view_set, instance] begin end`, times in RFC 3339.
pub open spec fn spec_write_description(meta: crate::view::ViewMetadataView, insert_range: TimeRange) -> Seq<char> {
    "["@ + meta.view_set_name + ", "@ + meta.view_instance_id + "] "@ + spec_rfc3339(insert_range.begin) + " "@
        + spec_rfc3339(insert_range.end)
}

pub fn write_description(meta: &ViewMetadata, insert_range: TimeRange) -> (r: String)
    ensures
        r@ == spec_write_description(meta@, insert_range),
{
    let mut s = String::from_str("[");
    s.append(meta.view_set_name.as_str());
    s.append(", ");
    s.append(meta.view_instance_id.as_str());
    s.append("] ");
    let b = rfc3339(insert_range.begin);
    s.append(b.as_str());
    s.append(" ");
    let e = rfc3339(insert_range.end);
    s.append(e.as_str());
    assert(s@ =~= spec_write_description(meta@, insert_range));
    s
}

/// The sum of the known sizes of a row's values (a value whose bytes cannot be read counts 0).
pub open spec fn known_sizes_sum(sizes: Seq<Option<usize>>) -> int
    decreases sizes.len(),
{
    if sizes.len() == 0 {
        0
    } else {
        known_sizes_sum(sizes.drop_last()) + match sizes.last() {
            Some(n) => n as int,
            None => 0,
        }
    }
}

/// The estimated byte size of a row: the sum of the sizes of its values that can be read.
pub fn estimate_row_bytes(sizes: &Vec<Option<usize>>) -> (r: usize)
    requires
        known_sizes_sum(sizes@) <= usize::MAX,
    ensures
        r == known_sizes_sum(sizes@),
{
    let mut total: usize = 0;
    let mut i: usize = 0;
    while i < sizes.len()
        invariant
            i <= sizes@.len(),
            known_sizes_sum(sizes@) <= usize::MAX,
            total == known_sizes_sum(sizes@.take(i as int)),
        decreases sizes@.len() - i,
    {
        proof {
            assert(sizes@.take(i + 1).drop_last() =~= sizes@.take(i as int));
            lemma_known_sizes_prefix(sizes@, i + 1);
        }
        match sizes[i] {
            Some(n) => total = total + n,
            None => {},
        }
        i = i + 1;
    }
    assert(sizes@.take(sizes@.len() as int) =~= sizes@);
    total
}

proof fn lemma_known_sizes_prefix(sizes: Seq<Option<usize>>, k: int)
    requires
        0 <= k <= sizes.len(),
    ensures
        known_sizes_sum(sizes.take(k)) <= known_sizes_sum(sizes),
    decreases sizes.len() - k,
{
    if k < sizes.len() {
        lemma_known_sizes_prefix(sizes, k + 1);
        assert(sizes.take(k + 1).drop_last() =~= sizes.take(k));
    } else {
        assert(sizes.take(k) =~= sizes);
    }
}

/// The pending chunk of metadata rows of a partition being written: how many rows, and their
/// estimated size. It is flushed as soon as its size reaches `SOURCE_BYTES_PER_BATCH`.
pub struct RowChunker {
    pub pending_rows: usize,
    pub pending_bytes: usize,
}

impl RowChunker {
    pub fn new() -> (r: RowChunker)
        ensures
            r.pending_rows == 0,
            r.pending_bytes == 0,
    {
        RowChunker { pending_rows: 0, pending_bytes: 0 }
    }

    /// Adds a row of `row_bytes` bytes; `true` when the chunk must be flushed now, which empties it.
    pub fn add_row(&mut self, row_bytes: usize) -> (flush: bool)
        requires
            old(self).pending_bytes < SOURCE_BYTES_PER_BATCH,
            old(self).pending_rows < usize::MAX,
            row_bytes <= usize::MAX - SOURCE_BYTES_PER_BATCH,
        ensures
            flush == (old(self).pending_bytes + row_bytes >= SOURCE_BYTES_PER_BATCH),
            flush ==> final(self).pending_rows == 0 && final(self).pending_bytes == 0,
            !flush ==> final(self).pending_rows == old(self).pending_rows + 1
                && final(self).pending_bytes == old(self).pending_bytes + row_bytes,
            final(self).pending_bytes < SOURCE_BYTES_PER_BATCH,
    {
        self.pending_bytes = self.pending_bytes + row_bytes;
        self.pending_rows = self.pending_rows + 1;
        if self.pending_bytes >= SOURCE_BYTES_PER_BATCH {
            self.pending_rows = 0;
            self.pending_bytes = 0;
            true
        } else {
            false
        }
    }

    /// Whether rows are left to flush once the source is exhausted.
    pub fn has_pending(&self) -> (r: bool)
        ensures
            r == (self.pending_rows > 0),
    {
        self.pending_rows > 0
    }
}

/// A partition of a view read from the metadata database: what it records once written.
pub struct MetadataPartitionSpec {
    pub view_metadata: ViewMetadata,
    pub insert_range: TimeRange,
    pub record_count: i64,
    pub data_sql: String,
    pub sort_order: Option<Vec<String>>,
}

impl MetadataPartitionSpec {
    /// A partition with no source record writes an empty partition.
    pub fn is_empty(&self) -> (r: bool)
        ensures
            r == (self.record_count < 1),
    {
        self.record_count < 1
    }

    /// The source data hash: the record count's little-endian bytes.
    pub fn get_source_data_hash(&self) -> (r: Vec<u8>)
        ensures
            r@ == le_bytes(self.record_count),
    {
        object_count_to_hash(self.record_count)
    }
}

/// The processor registered for a block's format: the index of the entry of `formats` (the keys
/// of the view's processor map, so distinct) equal to it; `None` when no processor handles the
/// format, and the block is skipped.
pub fn processor_for_format(formats: &Vec<String>, format: &str) -> (r: Option<usize>)
    requires
        strings_view(formats@).no_duplicates(),
    ensures
        r is None <==> !strings_view(formats@).contains(format@),
        r matches Some(i) ==> i < formats@.len() && formats@[i as int]@ == format@,
{
    let mut i: usize = 0;
    while i < formats.len()
        invariant
            i <= formats@.len(),
            forall|k: int| 0 <= k < i ==> (#[trigger] formats@[k])@ != format@,
        decreases formats@.len() - i,
    {
        if str_eq(formats[i].as_str(), format) {
            assert(strings_view(formats@)[i as int] == format@);
            return Some(i);
        }
        i = i + 1;
    }
    assert forall|k: int| 0 <= k < strings_view(formats@).len() implies strings_view(formats@)[k] != format@ by {
        assert(strings_view(formats@)[k] == formats@[k]@);
    }
    None
}

/// How processing a source block turned out.
#[derive(Clone, Copy, Debug, PartialEq, Eq, Structural)]
pub enum BlockOutcome {
    /// No processor handles the block's format.
    NoProcessor,
    /// The block's processor failed.
    Failed,
    /// The block was processed; `has_rows` tells whether it gave rows.
    Processed { has_rows: bool },
}

/// What writing a block partition does with one block's outcome.
#[derive(Clone, Copy, Debug, PartialEq, Eq, Structural)]
pub enum BlockWriteAction {
    /// Skip the block, leaving the partition build going.
    Skip,
    /// Log the error and go on with the other blocks.
    ReportAndContinue,
    /// Send the block's rows to the partition being written.
    SendRows,
}

/// Decides what happens to one block while a block partition is written: a block no processor
/// handles, or that gave no rows, is skipped; a failure is reported and the other blocks still go
/// through; rows are sent on.
pub fn block_write_action(outcome: BlockOutcome) -> (r: BlockWriteAction)
    ensures
        r == (match outcome {
            BlockOutcome::NoProcessor => BlockWriteAction::Skip,
            BlockOutcome::Failed => BlockWriteAction::ReportAndContinue,
            BlockOutcome::Processed { has_rows } => if has_rows { BlockWriteAction::SendRows } else { BlockWriteAction::Skip },
        }),
{
    match outcome {
        BlockOutcome::NoProcessor => BlockWriteAction::Skip,
        BlockOutcome::Failed => BlockWriteAction::ReportAndContinue,
        BlockOutcome::Processed { has_rows } => if has_rows {
            BlockWriteAction::SendRows
        } else {
            BlockWriteAction::Skip
        },
    }
}

} // verus!
