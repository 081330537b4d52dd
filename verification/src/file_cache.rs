use vstd::prelude::*;
use crate::error::LakehouseError;

verus! {

/// Default memory budget of the parquet file cache (200 MB).
pub const DEFAULT_CACHE_SIZE_BYTES: u64 = 200 * 1024 * 1024;

/// Default size of the largest file the cache keeps (10 MB).
pub const DEFAULT_MAX_FILE_SIZE_BYTES: u64 = 10 * 1024 * 1024;

/// The sizing rules of the parquet file cache: its memory budget, weighed by file size, and the
/// largest file it keeps (larger files are read straight from the object store).
pub struct FileCachePolicy {
    pub max_capacity_bytes: u64,
    pub max_file_size: u64,
}

impl Default for FileCachePolicy {
    fn default() -> (r: Self)
        ensures
            r.max_capacity_bytes == DEFAULT_CACHE_SIZE_BYTES,
            r.max_file_size == DEFAULT_MAX_FILE_SIZE_BYTES,
    {
        FileCachePolicy { max_capacity_bytes: DEFAULT_CACHE_SIZE_BYTES, max_file_size: DEFAULT_MAX_FILE_SIZE_BYTES }
    }
}

impl FileCachePolicy {
    pub fn new(max_capacity_bytes: u64, max_file_size_bytes: u64) -> (r: Self)
        ensures
            r.max_capacity_bytes == max_capacity_bytes,
            r.max_file_size == max_file_size_bytes,
    {
        FileCachePolicy { max_capacity_bytes, max_file_size: max_file_size_bytes }
    }

    /// Whether a file of `file_size` bytes goes through the cache.
    pub fn should_cache(&self, file_size: u64) -> (r: bool)
        ensures
            r == (file_size <= self.max_file_size),
    {
        file_size <= self.max_file_size
    }
}

/// The weight of a cache entry: its file size, which must fit the cache's 32-bit weigher.
pub fn entry_weight(file_size: u64) -> (r: Result<u32, LakehouseError>)
    ensures
        file_size <= u32::MAX ==> r == Ok::<u32, LakehouseError>(file_size as u32),
        file_size > u32::MAX ==> r == Err::<u32, LakehouseError>(LakehouseError::FileTooLargeToCache),
{
    if file_size > 0xffff_ffffu64 {
        Err(LakehouseError::FileTooLargeToCache)
    } else {
        Ok(file_size as u32)
    }
}

/// Whether every range `[start, end)` lies within `len` bytes.
pub open spec fn ranges_within(ranges: Seq<(u64, u64)>, len: int) -> bool {
    forall|k: int| 0 <= k < ranges.len() ==> (#[trigger] ranges[k]).0 <= ranges[k].1 && ranges[k].1 <= len
}

fn slice_bytes(data: &[u8], start: usize, end: usize) -> (r: Vec<u8>)
    requires
        start <= end <= data@.len(),
    ensures
        r@ == data@.subrange(start as int, end as int),
{
    let mut out: Vec<u8> = Vec::new();
    let mut i: usize = start;
    while i < end
        invariant
            start <= i <= end <= data@.len(),
            out@ == data@.subrange(start as int, i as int),
        decreases end - i,
    {
        out.push(data[i]);
        assert(out@ =~= data@.subrange(start as int, i + 1));
        i = i + 1;
    }
    out
}

/// The requested byte ranges of a cached file, in order.
pub fn slice_ranges(data: &[u8], ranges: &Vec<(u64, u64)>) -> (r: Vec<Vec<u8>>)
    requires
        ranges_within(ranges@, data@.len() as int),
    ensures
        r@.len() == ranges@.len(),
        forall|k: int| 0 <= k < r@.len() ==> (#[trigger] r@[k])@ == data@.subrange(ranges@[k].0 as int, ranges@[k].1 as int),
{
    let mut out: Vec<Vec<u8>> = Vec::new();
    let mut k: usize = 0;
    while k < ranges.len()
        invariant
            k <= ranges@.len(),
            ranges_within(ranges@, data@.len() as int),
            out@.len() == k,
            forall|m: int| 0 <= m < k ==> (#[trigger] out@[m])@ == data@.subrange(ranges@[m].0 as int, ranges@[m].1 as int),
        decreases ranges@.len() - k,
    {
        let (start, end) = ranges[k];
        let n: usize = data.len();
        assert(ranges@[k as int].0 <= ranges@[k as int].1 && ranges@[k as int].1 <= data@.len());
        assert(end <= n);
        let piece = slice_bytes(data, start as usize, end as usize);
        let ghost before = out@;
        out.push(piece);
        assert(out@[k as int]@ == data@.subrange(ranges@[k as int].0 as int, ranges@[k as int].1 as int));
        assert forall|m: int| 0 <= m < k + 1 implies (#[trigger] out@[m])@ == data@.subrange(ranges@[m].0 as int, ranges@[m].1 as int) by {
            if m < k {
                assert(out@[m] == before[m]);
            }
        }
        k = k + 1;
    }
    out
}

} // verus!
