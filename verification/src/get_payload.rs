use vstd::prelude::*;
use crate::audience_guard::u128s_contain;
use crate::list_partitions::{candidate_ids, chunk_candidates};
use crate::partition::strings_view;
use crate::uuid_text::{parse_uuid, spec_hyphenated, spec_parse_uuid, uuid_hyphenated};

verus! {

// The call-level guard of `get_payload(process_id, stream_id, block_id)`: the payload is read
// from `blobs/{process_id}/{stream_id}/{block_id}`, so the process id is the whole check. Every
// process id must parse and be readable; the batch is refused as a whole otherwise.

/// Whether row `k` holds the first process id that does not parse as a UUID.
pub open spec fn is_first_invalid(raws: Seq<Seq<char>>, k: int) -> bool {
    &&& 0 <= k < raws.len()
    &&& spec_parse_uuid(raws[k]) is None
    &&& forall|j: int| 0 <= j < k ==> spec_parse_uuid(#[trigger] raws[j]) is Some
}

/// The refusal of a process id that does not parse.
pub open spec fn invalid_id_message(raw: Seq<char>) -> Seq<char> {
    "get_payload: '"@ + raw + "' is not a valid process id"@
}

/// The distinct process ids of a batch, in order of first appearance; the refusal of the first one
/// that does not parse as a UUID.
pub fn distinct_process_ids(process_ids: &Vec<String>) -> (r: Result<Vec<u128>, String>)
    ensures
        r is Err <==> exists|k: int| 0 <= k < process_ids@.len() && spec_parse_uuid(#[trigger] process_ids@[k]@) is None,
        r matches Err(m) ==> exists|k: int| is_first_invalid(strings_view(process_ids@), k)
            && m@ == invalid_id_message(#[trigger] strings_view(process_ids@)[k]),
        r matches Ok(ids) ==> ids@ == candidate_ids(strings_view(process_ids@)),
{
    let ghost raws = strings_view(process_ids@);
    let mut i: usize = 0;
    while i < process_ids.len()
        invariant
            i <= process_ids@.len(),
            raws == strings_view(process_ids@),
            forall|j: int| 0 <= j < i ==> spec_parse_uuid(#[trigger] raws[j]) is Some,
        decreases process_ids@.len() - i,
    {
        if parse_uuid(process_ids[i].as_str()).is_none() {
            let mut m = String::from_str("get_payload: '");
            m.append(process_ids[i].as_str());
            m.append("' is not a valid process id");
            proof {
                assert(raws[i as int] == process_ids@[i as int]@);
                assert(is_first_invalid(raws, i as int));
                assert(m@ =~= invalid_id_message(raws[i as int]));
            }
            return Err(m);
        }
        i = i + 1;
    }
    assert forall|k: int| 0 <= k < process_ids@.len() implies spec_parse_uuid(#[trigger] process_ids@[k]@) is Some by {
        assert(raws[k] == process_ids@[k]@);
    }
    let (_, ids) = chunk_candidates(process_ids);
    Ok(ids)
}

/// Whether `k` is the first of `ids` that is not readable.
pub open spec fn is_first_unreadable(ids: Seq<u128>, readable: Seq<u128>, k: int) -> bool {
    &&& 0 <= k < ids.len()
    &&& !readable.contains(ids[k])
    &&& forall|j: int| 0 <= j < k ==> readable.contains(#[trigger] ids[j])
}

/// The refusal of an unreadable process: the same whether it exists or not.
pub open spec fn unreadable_message(id: u128) -> Seq<char> {
    "get_payload: process '"@ + spec_hyphenated(id) + "' not found or not accessible"@
}

/// Every process id of the batch must be readable; the refusal of the first that is not.
pub fn check_payload_access(ids: &Vec<u128>, readable: &Vec<u128>) -> (r: Result<(), String>)
    ensures
        r is Ok <==> forall|k: int| 0 <= k < ids@.len() ==> readable@.contains(#[trigger] ids@[k]),
        r matches Err(m) ==> exists|k: int| is_first_unreadable(ids@, readable@, k) && m@ == unreadable_message(#[trigger] ids@[k]),
{
    let mut i: usize = 0;
    while i < ids.len()
        invariant
            i <= ids@.len(),
            forall|j: int| 0 <= j < i ==> readable@.contains(#[trigger] ids@[j]),
        decreases ids@.len() - i,
    {
        if !u128s_contain(readable, ids[i]) {
            let mut m = String::from_str("get_payload: process '");
            let text = uuid_hyphenated(ids[i]);
            m.append(text.as_str());
            m.append("' not found or not accessible");
            proof {
                assert(is_first_unreadable(ids@, readable@, i as int));
                assert(m@ =~= unreadable_message(ids@[i as int]));
            }
            return Err(m);
        }
        i = i + 1;
    }
    Ok(())
}

/// The object path of a block's payload: `blobs/{process_id}/{stream_id}/{block_id}`.
pub open spec fn spec_payload_path(process_id: Seq<char>, stream_id: Seq<char>, block_id: Seq<char>) -> Seq<char> {
    "blobs/"@ + process_id + "/"@ + stream_id + "/"@ + block_id
}

pub fn payload_object_path(process_id: &str, stream_id: &str, block_id: &str) -> (r: String)
    ensures
        r@ == spec_payload_path(process_id@, stream_id@, block_id@),
{
    let mut s = String::from_str("blobs/");
    s.append(process_id);
    s.append("/");
    s.append(stream_id);
    s.append("/");
    s.append(block_id);
    assert(s@ =~= spec_payload_path(process_id@, stream_id@, block_id@));
    s
}

} // verus!
