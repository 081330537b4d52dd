use vstd::prelude::*;
use vstd::std_specs::iter::IteratorSpec;
use crate::bytes::bytes_copy;

verus! {

/// Whether two strings hold the same characters.
pub(crate) fn str_eq(a: &str, b: &str) -> (r: bool)
    ensures
        r == (a@ == b@),
{
    let n = a.unicode_len();
    if n != b.unicode_len() {
        return false;
    }
    let mut i: usize = 0;
    while i < n
        invariant
            i <= n,
            n == a@.len(),
            n == b@.len(),
            forall|k: int| 0 <= k < i ==> a@[k] == b@[k],
        decreases n - i,
    {
        if a.get_char(i) != b.get_char(i) {
            return false;
        }
        i = i + 1;
    }
    assert(a@ =~= b@);
    true
}

/// The characters of a string, in order.
pub(crate) fn chars_of(s: &str) -> (r: Vec<char>)
    ensures
        r@ == s@,
{
    broadcast use {vstd::string::axiom_spec_iter, vstd::string::next_postcondition};
    let mut it = s.chars();
    let mut out: Vec<char> = Vec::new();
    loop
        invariant
            out@ + it.remaining() == s@,
            it.decrease() is Some,
        decreases it.decrease()->0,
    {
        let ghost before = it.remaining();
        match it.next() {
            Some(c) => {
                assert(out@.push(c) + it.remaining() =~= out@ + before);
                out.push(c);
            },
            None => {
                assert(out@ =~= s@);
                return out;
            },
        }
    }
}

/// Metadata about a view: its set, its instance, and the hash of its current file schema.
pub struct ViewMetadata {
    pub view_set_name: String,
    pub view_instance_id: String,
    pub file_schema_hash: Vec<u8>,
}

pub struct ViewMetadataView {
    pub view_set_name: Seq<char>,
    pub view_instance_id: Seq<char>,
    pub file_schema_hash: Seq<u8>,
}

impl View for ViewMetadata {
    type V = ViewMetadataView;

    open spec fn view(&self) -> ViewMetadataView {
        ViewMetadataView {
            view_set_name: self.view_set_name@,
            view_instance_id: self.view_instance_id@,
            file_schema_hash: self.file_schema_hash@,
        }
    }
}

impl ViewMetadata {
    pub fn copy(&self) -> (r: ViewMetadata)
        ensures
            r@ == self@,
    {
        ViewMetadata {
            view_set_name: self.view_set_name.clone(),
            view_instance_id: self.view_instance_id.clone(),
            file_schema_hash: bytes_copy(self.file_schema_hash.as_slice()),
        }
    }
}

/// One column of a declared scan ordering.
pub struct ScanSortColumn {
    pub column: String,
    pub descending: bool,
}

} // verus!
