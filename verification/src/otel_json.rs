use vstd::prelude::*;
use crate::uuid_text::hex_digit;
use crate::view::str_eq;

verus! {

/// An OpenTelemetry attribute value (`AnyValue`), as plain values. A double is carried by its IEEE-754 bits;
/// `Empty` is an `AttrValue` that holds no value. A key/value pair may have no value at all.
pub enum AttrValue {
    Empty,
    Str(String),
    Bool(bool),
    Int(i64),
    Double(u64),
    Bytes(Vec<u8>),
    Array(Vec<AttrValue>),
    KvList(Vec<(String, Option<AttrValue>)>),
}

/// A JSON value, as written into the JSONB `properties` columns. A double is carried by its
/// IEEE-754 bits; `UInt` is a non-negative integer that JSONB holds as an unsigned number. An object's keys are distinct; their order is not significant (the encoder
/// orders them).
pub enum JsonValue {
    Null,
    Bool(bool),
    Int(i64),
    UInt(u64),
    Double(u64),
    Str(String),
    Array(Vec<JsonValue>),
    Object(Vec<(String, JsonValue)>),
}

/// The lowercase hexadecimal text of bytes: two digits per byte, high nibble first.
pub open spec fn spec_hex(b: Seq<u8>) -> Seq<char> {
    Seq::new(2 * b.len(), |i: int| if i % 2 == 0 {
        hex_digit((b[i / 2] / 16) as int)
    } else {
        hex_digit((b[i / 2] % 16) as int)
    })
}

/// `hex::encode`: its source maps each byte to its high then its low nibble through the table
/// `0123456789abcdef`.
#[verifier::external_body]
pub(crate) fn hex_encode(b: &[u8]) -> (r: String)
    ensures
        r@ == spec_hex(b@),
{
    hex::encode(b)
}

/// The character of the standard base64 alphabet for a 6-bit value.
pub open spec fn base64_char(n: int) -> char {
    if n < 26 {
        (n + 65) as char
    } else if n < 52 {
        (n - 26 + 97) as char
    } else if n < 62 {
        (n - 52 + 48) as char
    } else if n == 62 {
        '+'
    } else {
        '/'
    }
}

/// Byte `i` of `b`, zero past its end.
pub open spec fn byte_or_zero(b: Seq<u8>, i: int) -> int {
    if 0 <= i < b.len() { b[i] as int } else { 0 }
}

/// Standard base64 with padding: each group of three bytes (zero-filled at the end) gives four
/// characters of six bits each, most significant first; a last group of one byte ends with
/// `==`, of two bytes with `=`.
pub open spec fn spec_base64(b: Seq<u8>) -> Seq<char> {
    Seq::new(4 * ((b.len() + 2) / 3), |i: int| {
        let g = i / 4;
        let p = i % 4;
        let rest = b.len() - 3 * g;
        let v = byte_or_zero(b, 3 * g) * 65536 + byte_or_zero(b, 3 * g + 1) * 256 + byte_or_zero(b, 3 * g + 2);
        if (p == 2 && rest < 2) || (p == 3 && rest < 3) {
            '='
        } else {
            base64_char((v / pow64(3 - p)) % 64)
        }
    })
}

/// 64 to the power `k` (for `k` in 0..=3).
pub open spec fn pow64(k: int) -> int {
    if k <= 0 { 1 } else if k == 1 { 64 } else if k == 2 { 4096 } else { 262144 }
}

/// `base64::engine::general_purpose::STANDARD.encode`: the standard alphabet with padding, as
/// the crate's documentation and source (`alphabet::STANDARD`, config `PAD`) give it.
#[verifier::external_body]
pub(crate) fn base64_encode(b: &[u8]) -> (r: String)
    ensures
        r@ == spec_base64(b@),
{
    base64::Engine::encode(&base64::engine::general_purpose::STANDARD, b)
}

/// The keys of a list of entries.
pub open spec fn entry_keys(e: Seq<(String, JsonValue)>) -> Seq<Seq<char>> {
    e.map_values(|x: (String, JsonValue)| x.0@)
}

/// The keys of a list of key/value pairs.
pub open spec fn kv_keys(kvs: Seq<(String, Option<AttrValue>)>) -> Seq<Seq<char>> {
    kvs.map_values(|x: (String, Option<AttrValue>)| x.0@)
}

/// Whether position `i` holds the last occurrence of its key.
pub open spec fn is_last_key(keys: Seq<Seq<char>>, i: int) -> bool {
    forall|j: int| i < j && j < keys.len() ==> #[trigger] keys[j] != keys[i]
}

/// The positions from `m` on that hold the last occurrence of their key, last position first:
/// inserting the entries into a map in order, a later entry replacing an earlier one of the same
/// key, leaves exactly the entries at these positions.
pub open spec fn last_positions(keys: Seq<Seq<char>>, m: int) -> Seq<int>
    decreases keys.len() - m,
{
    if m < 0 || m >= keys.len() {
        Seq::empty()
    } else if is_last_key(keys, m) {
        last_positions(keys, m + 1).push(m)
    } else {
        last_positions(keys, m + 1)
    }
}

pub proof fn lemma_last_positions_bounds(keys: Seq<Seq<char>>, m: int)
    requires
        0 <= m <= keys.len(),
    ensures
        forall|k: int| 0 <= k < last_positions(keys, m).len() ==>
            m <= #[trigger] last_positions(keys, m)[k] < keys.len() && is_last_key(keys, last_positions(keys, m)[k]),
    decreases keys.len() - m,
{
    if m < keys.len() {
        lemma_last_positions_bounds(keys, m + 1);
        let rest = last_positions(keys, m + 1);
        let lp = last_positions(keys, m);
        assert forall|k: int| 0 <= k < lp.len() implies
            m <= #[trigger] lp[k] < keys.len() && is_last_key(keys, lp[k]) by {
            if is_last_key(keys, m) {
                assert(lp == rest.push(m));
                if k < rest.len() {
                    assert(lp[k] == rest[k]);
                }
            } else {
                assert(lp == rest);
                assert(lp[k] == rest[k]);
            }
        }
    }
}

proof fn lemma_last_positions_cover(keys: Seq<Seq<char>>, m: int, j: int)
    requires
        0 <= m <= j < keys.len(),
    ensures
        exists|k: int| 0 <= k < last_positions(keys, m).len() && keys[#[trigger] last_positions(keys, m)[k]] == keys[j],
    decreases keys.len() - m,
{
    let lp = last_positions(keys, m);
    if j == m && is_last_key(keys, m) {
        assert(lp[lp.len() - 1] == m);
    } else if j == m {
        let j2 = choose|j2: int| m < j2 && j2 < keys.len() && #[trigger] keys[j2] == keys[m];
        lemma_last_positions_cover(keys, m + 1, j2);
        let rest = last_positions(keys, m + 1);
        let k = choose|k: int| 0 <= k < rest.len() && keys[#[trigger] rest[k]] == keys[j2];
        assert(lp[k] == rest[k]);
    } else {
        lemma_last_positions_cover(keys, m + 1, j);
        let rest = last_positions(keys, m + 1);
        let k = choose|k: int| 0 <= k < rest.len() && keys[#[trigger] rest[k]] == keys[j];
        assert(lp[k] == rest[k]);
    }
}

proof fn lemma_last_positions_decreasing(keys: Seq<Seq<char>>, m: int)
    requires
        0 <= m <= keys.len(),
    ensures
        forall|i: int, j: int| 0 <= i < j < last_positions(keys, m).len() ==>
            #[trigger] last_positions(keys, m)[i] > #[trigger] last_positions(keys, m)[j],
    decreases keys.len() - m,
{
    if m < keys.len() {
        lemma_last_positions_decreasing(keys, m + 1);
        lemma_last_positions_bounds(keys, m + 1);
        let rest = last_positions(keys, m + 1);
        let lp = last_positions(keys, m);
        assert forall|i: int, j: int| 0 <= i < j < lp.len() implies #[trigger] lp[i] > #[trigger] lp[j] by {
            if is_last_key(keys, m) {
                assert(lp == rest.push(m));
                assert(lp[i] == rest[i]);
                if j < rest.len() {
                    assert(lp[j] == rest[j]);
                } else {
                    assert(lp[j] == m);
                    assert(m + 1 <= rest[i]);
                }
            } else {
                assert(lp == rest);
            }
        }
    }
}

/// Law: inserting entries into a map in order, a later entry replacing an earlier one of the
/// same key, leaves each key once, every key of the entries, and for each key its last entry.
pub proof fn last_wins_keys_once(entries: Seq<(String, JsonValue)>, out: Seq<(String, JsonValue)>)
    requires
        entries_at(out, entries, last_positions(entry_keys(entries), 0)),
    ensures
        forall|i: int, j: int| 0 <= i < j < out.len() ==> (#[trigger] out[i]).0@ != (#[trigger] out[j]).0@,
        forall|j: int| 0 <= j < entries.len() ==> exists|k: int| 0 <= k < out.len() && (#[trigger] out[k]).0@ == (#[trigger] entries[j]).0@,
        forall|k: int, j: int| 0 <= k < out.len() && 0 <= j < entries.len() && (#[trigger] out[k]).0@ == (#[trigger] entries[j]).0@
            ==> exists|p: int| 0 <= p < entries.len() && j <= p && out[k] == #[trigger] entries[p],
{
    let keys = entry_keys(entries);
    let lp = last_positions(keys, 0);
    lemma_last_positions_bounds(keys, 0);
    lemma_last_positions_decreasing(keys, 0);
    assert forall|i: int, j: int| 0 <= i < j < out.len() implies (#[trigger] out[i]).0@ != (#[trigger] out[j]).0@ by {
        assert(out[i] == entries[lp[i]]);
        assert(out[j] == entries[lp[j]]);
        assert(lp[i] > lp[j]);
        assert(is_last_key(keys, lp[j]));
        assert(keys[lp[i]] == out[i].0@);
        assert(keys[lp[j]] == out[j].0@);
    }
    assert forall|j: int| 0 <= j < entries.len() implies exists|k: int| 0 <= k < out.len() && (#[trigger] out[k]).0@ == (#[trigger] entries[j]).0@ by {
        lemma_last_positions_cover(keys, 0, j);
        let k = choose|k: int| 0 <= k < lp.len() && keys[#[trigger] lp[k]] == keys[j];
        assert(out[k] == entries[lp[k]]);
        assert(keys[lp[k]] == entries[lp[k]].0@);
        assert(keys[j] == entries[j].0@);
    }
    assert forall|k: int, j: int| 0 <= k < out.len() && 0 <= j < entries.len() && (#[trigger] out[k]).0@ == (#[trigger] entries[j]).0@
        implies exists|p: int| 0 <= p < entries.len() && j <= p && out[k] == #[trigger] entries[p] by {
        let p = lp[k];
        assert(out[k] == entries[p]);
        assert(is_last_key(keys, p));
        assert(keys[p] == entries[p].0@);
        assert(keys[j] == entries[j].0@);
        if j > p {
            assert(keys[j] != keys[p]);
        }
    }
}

/// Whether `out` holds the entries of `e` at `positions`, in that order.
pub open spec fn entries_at(out: Seq<(String, JsonValue)>, e: Seq<(String, JsonValue)>, positions: Seq<int>) -> bool {
    &&& out.len() == positions.len()
    &&& forall|k: int| 0 <= k < out.len() ==> #[trigger] out[k] == e[positions[k]]
}

fn keys_contain(out: &Vec<(String, JsonValue)>, k: &str) -> (r: bool)
    ensures
        r == exists|i: int| 0 <= i < out@.len() && (#[trigger] out@[i]).0@ == k@,
{
    let mut i: usize = 0;
    while i < out.len()
        invariant
            i <= out@.len(),
            forall|j: int| 0 <= j < i ==> (#[trigger] out@[j]).0@ != k@,
        decreases out@.len() - i,
    {
        if str_eq(out[i].0.as_str(), k) {
            assert(out@[i as int].0@ == k@);
            return true;
        }
        i = i + 1;
    }
    false
}

/// Inserts entries in order into a map, a later entry replacing an earlier one of the same key:
/// the result holds the last entry of each key (last position first).
pub fn last_wins(entries: Vec<(String, JsonValue)>) -> (r: Vec<(String, JsonValue)>)
    ensures
        entries_at(r@, entries@, last_positions(entry_keys(entries@), 0)),
{
    let ghost all = entries@;
    let ghost keys = entry_keys(all);
    let mut rest = entries;
    let mut out: Vec<(String, JsonValue)> = Vec::new();
    while rest.len() > 0
        invariant
            rest@.len() <= all.len(),
            keys == entry_keys(all),
            rest@ == all.subrange(0, rest@.len() as int),
            entries_at(out@, all, last_positions(keys, rest@.len() as int)),
        decreases rest@.len(),
    {
        let ghost m = rest@.len() as int - 1;
        let e = rest.pop().unwrap();
        assert(e == all[m]);
        assert(rest@ =~= all.subrange(0, m));
        let ghost lp = last_positions(keys, m + 1);
        proof {
            lemma_last_positions_bounds(keys, m + 1);
            assert(keys[m] == e.0@);
        }
        let found = keys_contain(&out, e.0.as_str());
        proof {
            if found {
                let i = choose|i: int| 0 <= i < out@.len() && (#[trigger] out@[i]).0@ == e.0@;
                assert(out@[i] == all[lp[i]]);
                assert(keys[lp[i]] == keys[m]);
                assert(m < lp[i]);
                assert(!is_last_key(keys, m));
            } else {
                assert forall|j: int| m < j && j < keys.len() implies #[trigger] keys[j] != keys[m] by {
                    if keys[j] == keys[m] {
                        lemma_last_positions_cover(keys, m + 1, j);
                        let k = choose|k: int| 0 <= k < lp.len() && keys[#[trigger] lp[k]] == keys[j];
                        assert(out@[k] == all[lp[k]]);
                        assert(out@[k].0@ == e.0@);
                    }
                }
                assert(is_last_key(keys, m));
            }
        }
        if !found {
            let ghost before = out@;
            out.push(e);
            proof {
                assert(last_positions(keys, m) == lp.push(m));
                assert forall|k: int| 0 <= k < out@.len() implies #[trigger] out@[k] == all[last_positions(keys, m)[k]] by {
                    if k < before.len() {
                        assert(out@[k] == before[k]);
                    }
                }
            }
        }
    }
    out
}

/// Whether `j` is the JSON form of `v` (`any_value_to_json`): strings, booleans, integers and
/// doubles map to themselves, bytes to their base64 text, an empty value to `null`, an array
/// element by element, and a key/value list to an object holding, for each key, its last pair
/// (a later pair replaces an earlier one), a pair without a value giving `null`.
pub open spec fn json_is(j: JsonValue, v: AttrValue) -> bool
    decreases v,
{
    match v {
        AttrValue::Empty => j is Null,
        AttrValue::Str(s) => j matches JsonValue::Str(t) && t@ == s@,
        AttrValue::Bool(b) => j == JsonValue::Bool(b),
        AttrValue::Int(i) => j == JsonValue::Int(i),
        AttrValue::Double(d) => j == JsonValue::Double(d),
        AttrValue::Bytes(b) => j matches JsonValue::Str(t) && t@ == spec_base64(b@),
        AttrValue::Array(vs) => j matches JsonValue::Array(js) && js@.len() == vs@.len()
            && forall|i: int| 0 <= i && i < vs@.len() ==> json_is(#[trigger] js@[i], vs@[i]),
        AttrValue::KvList(kvs) => j matches JsonValue::Object(out)
            && out@.len() == last_positions(kv_keys(kvs@), 0).len()
            && forall|k: int| 0 <= k && k < out@.len() ==> {
                let p = last_positions(kv_keys(kvs@), 0)[k];
                &&& 0 <= p && p < kvs@.len()
                &&& (#[trigger] out@[k]).0@ == kvs@[p].0@
                &&& kvs@[p].1 is None ==> out@[k].1 is Null
                &&& (0 <= p && p < kvs@.len() && kvs@[p].1 is Some) ==> json_is(out@[k].1, kvs@[p].1->Some_0)
            },
    }
}

/// Whether `j` is the JSON form of an optional value (`null` when absent).
pub open spec fn json_is_opt(j: JsonValue, v: Option<AttrValue>) -> bool {
    match v {
        None => j is Null,
        Some(x) => json_is(j, x),
    }
}

/// The JSON form of an OpenTelemetry value (see `json_is`).
pub fn any_value_to_json(v: &AttrValue) -> (r: JsonValue)
    ensures
        json_is(r, *v),
    decreases v,
{
    match v {
        AttrValue::Empty => JsonValue::Null,
        AttrValue::Str(s) => JsonValue::Str(s.clone()),
        AttrValue::Bool(b) => JsonValue::Bool(*b),
        AttrValue::Int(i) => JsonValue::Int(*i),
        AttrValue::Double(d) => JsonValue::Double(*d),
        AttrValue::Bytes(b) => JsonValue::Str(base64_encode(b.as_slice())),
        AttrValue::Array(vs) => {
            let mut js: Vec<JsonValue> = Vec::new();
            let mut i: usize = 0;
            while i < vs.len()
                invariant
                    i <= vs@.len(),
                    *v == AttrValue::Array(*vs),
                    js@.len() == i,
                    forall|k: int| 0 <= k < i ==> json_is(#[trigger] js@[k], vs@[k]),
                decreases vs@.len() - i,
            {
                proof {
                    assert(decreases_to!(*v => (*v)->Array_0));
                    assert(decreases_to!(*vs => vs@));
                    assert(decreases_to!(vs@ => vs@[i as int]));
                }
                let j = any_value_to_json(&vs[i]);
                js.push(j);
                i = i + 1;
            }
            JsonValue::Array(js)
        },
        AttrValue::KvList(kvs) => {
            let mut entries: Vec<(String, JsonValue)> = Vec::new();
            let mut i: usize = 0;
            while i < kvs.len()
                invariant
                    i <= kvs@.len(),
                    *v == AttrValue::KvList(*kvs),
                    entries@.len() == i,
                    forall|m: int| 0 <= m < i ==> (#[trigger] entries@[m]).0@ == kvs@[m].0@ && json_is_opt(entries@[m].1, kvs@[m].1),
                decreases kvs@.len() - i,
            {
                let key = kvs[i].0.clone();
                let value = match &kvs[i].1 {
                    None => JsonValue::Null,
                    Some(x) => {
                        proof {
                            assert(decreases_to!(*v => (*v)->KvList_0));
                            assert(decreases_to!(*kvs => kvs@));
                            assert(decreases_to!(kvs@ => kvs@[i as int]));
                            assert(decreases_to!(kvs@[i as int] => kvs@[i as int].1));
                            assert(decreases_to!(kvs@[i as int].1 => kvs@[i as int].1->Some_0));
                        }
                        any_value_to_json(x)
                    },
                };
                entries.push((key, value));
                i = i + 1;
            }
            let ghost ev = entries@;
            let out = last_wins(entries);
            proof {
                assert(entry_keys(ev) =~= kv_keys(kvs@));
                lemma_last_positions_bounds(kv_keys(kvs@), 0);
                assert forall|k: int| 0 <= k && k < out@.len() implies {
                    let p = last_positions(kv_keys(kvs@), 0)[k];
                    &&& 0 <= p && p < kvs@.len()
                    &&& (#[trigger] out@[k]).0@ == kvs@[p].0@
                    &&& kvs@[p].1 is None ==> out@[k].1 is Null
                    &&& (0 <= p && p < kvs@.len() && kvs@[p].1 is Some) ==> json_is(out@[k].1, kvs@[p].1->Some_0)
                } by {
                    let p = last_positions(kv_keys(kvs@), 0)[k];
                    assert(out@[k] == ev[p]);
                    let e = ev[p];
                }
            }
            JsonValue::Object(out)
        },
    }
}

/// Whether `out` is the object of the key/value pairs `kvs` (see `json_is`, whose key/value list
/// case this is).
pub open spec fn kv_object_is(out: Seq<(String, JsonValue)>, kvs: Seq<(String, Option<AttrValue>)>) -> bool {
    &&& out.len() == last_positions(kv_keys(kvs), 0).len()
    &&& forall|k: int| 0 <= k && k < out.len() ==> {
        let p = last_positions(kv_keys(kvs), 0)[k];
        &&& 0 <= p && p < kvs.len()
        &&& (#[trigger] out[k]).0@ == kvs[p].0@
        &&& json_is_opt(out[k].1, kvs[p].1)
    }
}

/// The key/value pairs that carry a value, in order.
pub open spec fn with_values(kvs: Seq<(String, Option<AttrValue>)>) -> Seq<(String, Option<AttrValue>)>
    decreases kvs.len(),
{
    if kvs.len() == 0 {
        Seq::empty()
    } else if kvs.last().1 is Some {
        with_values(kvs.drop_last()).push(kvs.last())
    } else {
        with_values(kvs.drop_last())
    }
}

/// The keys of attributes followed by those of extras.
pub open spec fn attrs_keys(attrs: Seq<(String, Option<AttrValue>)>, extras: Seq<(String, JsonValue)>) -> Seq<Seq<char>> {
    kv_keys(attrs) + entry_keys(extras)
}

/// Whether entry `e` of an object comes from attribute or extra `p`.
pub open spec fn attr_entry_is(e: (String, JsonValue), p: int, attrs: Seq<(String, Option<AttrValue>)>, extras: Seq<(String, JsonValue)>) -> bool {
    &&& 0 <= p && p < attrs.len() + extras.len()
    &&& p < attrs.len() ==> e.0@ == attrs[p].0@ && json_is_opt(e.1, attrs[p].1)
    &&& p >= attrs.len() ==> e == extras[p - attrs.len()]
}

/// The object of key/value pairs, a later pair replacing an earlier one of the same key and a
/// pair without a value giving `null`, followed by `extras`, which replace pairs of the same key.
pub open spec fn attrs_object_is(out: Seq<(String, JsonValue)>, attrs: Seq<(String, Option<AttrValue>)>, extras: Seq<(String, JsonValue)>) -> bool {
    &&& out.len() == last_positions(attrs_keys(attrs, extras), 0).len()
    &&& forall|k: int| 0 <= k && k < out.len() ==> attr_entry_is(#[trigger] out[k], last_positions(attrs_keys(attrs, extras), 0)[k], attrs, extras)
}

/// Converts key/value pairs in order, a pair without a value giving `null`.
fn convert_attrs(attrs: &Vec<(String, Option<AttrValue>)>) -> (r: Vec<(String, JsonValue)>)
    ensures
        r@.len() == attrs@.len(),
        forall|m: int| 0 <= m < attrs@.len() ==> (#[trigger] r@[m]).0@ == attrs@[m].0@ && json_is_opt(r@[m].1, attrs@[m].1),
{
    let mut entries: Vec<(String, JsonValue)> = Vec::new();
    let mut i: usize = 0;
    while i < attrs.len()
        invariant
            i <= attrs@.len(),
            entries@.len() == i,
            forall|m: int| 0 <= m < i ==> (#[trigger] entries@[m]).0@ == attrs@[m].0@ && json_is_opt(entries@[m].1, attrs@[m].1),
        decreases attrs@.len() - i,
    {
        let key = attrs[i].0.clone();
        let value = match &attrs[i].1 {
            None => JsonValue::Null,
            Some(x) => any_value_to_json(x),
        };
        entries.push((key, value));
        i = i + 1;
    }
    entries
}

/// The properties object of a record: its attributes (a pair without a value giving `null`),
/// then `extras`, a later entry replacing an earlier one of the same key.
pub fn attrs_object(attrs: &Vec<(String, Option<AttrValue>)>, extras: Vec<(String, JsonValue)>) -> (r: Vec<(String, JsonValue)>)
    ensures
        attrs_object_is(r@, attrs@, extras@),
{
    let ghost ex = extras@;
    let mut entries = convert_attrs(attrs);
    let ghost conv = entries@;
    let mut extras = extras;
    entries.append(&mut extras);
    let ghost all = entries@;
    let out = last_wins(entries);
    proof {
        assert(all =~= conv + ex);
        let keys = attrs_keys(attrs@, ex);
        assert(entry_keys(all) =~= keys);
        lemma_last_positions_bounds(keys, 0);
        assert forall|k: int| 0 <= k && k < out@.len() implies attr_entry_is(#[trigger] out@[k], last_positions(attrs_keys(attrs@, ex), 0)[k], attrs@, ex) by {
            let p = last_positions(keys, 0)[k];
            assert(out@[k] == all[p]);
            if p < attrs@.len() {
                assert(all[p] == conv[p]);
            } else {
                assert(all[p] == ex[p - attrs@.len()]);
            }
        }
    }
    out
}

/// The object of the pairs that carry a value (a later pair replacing an earlier one).
pub fn values_object(attrs: &Vec<(String, Option<AttrValue>)>) -> (r: Vec<(String, JsonValue)>)
    ensures
        kv_object_is(r@, with_values(attrs@)),
{
    let ghost wv = with_values(attrs@);
    let mut entries: Vec<(String, JsonValue)> = Vec::new();
    let mut i: usize = 0;
    while i < attrs.len()
        invariant
            i <= attrs@.len(),
            entries@.len() == with_values(attrs@.take(i as int)).len(),
            forall|m: int| 0 <= m < entries@.len() ==> (#[trigger] entries@[m]).0@ == with_values(attrs@.take(i as int))[m].0@
                && json_is_opt(entries@[m].1, with_values(attrs@.take(i as int))[m].1),
        decreases attrs@.len() - i,
    {
        proof {
            assert(attrs@.take(i + 1).drop_last() =~= attrs@.take(i as int));
        }
        match &attrs[i].1 {
            None => {},
            Some(x) => {
                let key = attrs[i].0.clone();
                let value = any_value_to_json(x);
                entries.push((key, value));
            },
        }
        i = i + 1;
    }
    assert(attrs@.take(attrs@.len() as int) =~= attrs@);
    let ghost all = entries@;
    let out = last_wins(entries);
    proof {
        assert(entry_keys(all) =~= kv_keys(wv));
        lemma_last_positions_bounds(kv_keys(wv), 0);
        assert forall|k: int| 0 <= k && k < out@.len() implies {
            let p = last_positions(kv_keys(wv), 0)[k];
            &&& 0 <= p && p < wv.len()
            &&& (#[trigger] out@[k]).0@ == wv[p].0@
            &&& json_is_opt(out@[k].1, wv[p].1)
        } by {
            let p = last_positions(kv_keys(wv), 0)[k];
            assert(out@[k] == all[p]);
        }
    }
    out
}

} // verus!
