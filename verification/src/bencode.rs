use std::collections::BTreeMap;
use vstd::prelude::*;

verus! {

/// `serde_bencode::Error`, carried as an opaque value.
#[verifier::external_type_specification]
#[verifier::external_body]
pub struct ExBencodeError(serde_bencode::Error);

/// The decimal digits of `n`, most significant first, with no leading zero.
pub open spec fn decimal(n: nat) -> Seq<u8>
    decreases n,
{
    if n < 10 {
        seq![(48 + n) as u8]
    } else {
        decimal(n / 10).push((48 + n % 10) as u8)
    }
}

/// The bytes of a name whose characters are all ASCII.
pub open spec fn ascii(name: Seq<char>) -> Seq<u8> {
    name.map_values(|c: char| c as u8)
}

/// Every character of the name is ASCII.
pub open spec fn is_ascii_name(name: Seq<char>) -> bool {
    forall|i: int| 0 <= i < name.len() ==> (#[trigger] name[i] as u32) < 128
}

/// `a` comes before `b` in the order of their bytes.
pub open spec fn key_before(a: Seq<char>, b: Seq<char>) -> bool
    decreases a.len(),
{
    if b.len() == 0 {
        false
    } else if a.len() == 0 {
        true
    } else if a[0] != b[0] {
        (a[0] as u32) < (b[0] as u32)
    } else {
        key_before(a.drop_first(), b.drop_first())
    }
}

/// The names are ASCII and each comes before the next.
pub open spec fn keys_ascending(fields: Seq<(Seq<char>, u64)>) -> bool {
    &&& forall|i: int| 0 <= i < fields.len() ==> is_ascii_name(#[trigger] fields[i].0)
    &&& forall|i: int|
        0 <= i && i + 1 < fields.len() ==> key_before(#[trigger] fields[i].0, fields[i + 1].0)
}

/// One entry of a bencoded dictionary of integers: the name as a byte string,
/// then the number between `i` and `e`.
pub open spec fn entry_encoding(name: Seq<char>, value: u64) -> Seq<u8> {
    decimal(name.len()) + seq![58u8] + ascii(name) + seq![105u8] + decimal(value as nat)
        + seq![101u8]
}

/// The entries of a bencoded dictionary of integers, one after the other.
pub open spec fn entries_encoding(fields: Seq<(Seq<char>, u64)>) -> Seq<u8>
    decreases fields.len(),
{
    if fields.len() == 0 {
        Seq::empty()
    } else {
        entry_encoding(fields[0].0, fields[0].1) + entries_encoding(fields.drop_first())
    }
}

/// The bencoding of a dictionary of unsigned integers whose entries are given
/// in the order of their names: `d`, the entries, `e`.
pub open spec fn int_dict_encoding(fields: Seq<(Seq<char>, u64)>) -> Seq<u8> {
    seq![100u8] + entries_encoding(fields) + seq![101u8]
}

/// What `serde_bencode::from_bytes` reads from the front of `b` as a
/// dictionary of integers: the entries in key order, or `None` where it fails,
/// as it does where any value is no integer.
pub uninterp spec fn int_dict_decoding(b: Seq<u8>) -> Option<Seq<(Seq<char>, i64)>>;

/// Entries of an encoder's input as plain values.
pub open spec fn named_fields(fields: Seq<(&'static str, u64)>) -> Seq<(Seq<char>, u64)> {
    fields.map_values(|e: (&'static str, u64)| (e.0@, e.1))
}

/// Entries of a decoder's output as plain values.
pub open spec fn read_fields(fields: Seq<(String, i64)>) -> Seq<(Seq<char>, i64)> {
    fields.map_values(|e: (String, i64)| (e.0@, e.1))
}

/// `serde_bencode::to_bytes` on a map from the given names to the given
/// numbers. Claimed: for ASCII names given in ascending order it succeeds, and
/// writes `d`, then each name as a byte string followed by its number in
/// decimal between `i` and `e`, then `e`.
#[verifier::external_body]
pub(crate) fn encode_int_dict(fields: &Vec<(&'static str, u64)>) -> (r: Result<
    Vec<u8>,
    serde_bencode::Error,
>)
    requires
        keys_ascending(named_fields(fields@)),
    ensures
        r is Ok,
        r matches Ok(v) ==> v@ == int_dict_encoding(named_fields(fields@)),
{
    serde_bencode::to_bytes(&fields.iter().copied().collect::<BTreeMap<&str, u64>>())
}

/// `serde_bencode::from_bytes` for a map from strings to integers. Claimed:
/// whether it succeeds, and the entries it then gives in key order, depend on
/// the bytes alone. Bytes after the dictionary are not looked at. It fails on
/// a value that is no integer, under whatever key, without descending into
/// it; of a key that stands twice it keeps the later value.
#[verifier::external_body]
pub(crate) fn decode_int_dict(b: &[u8]) -> (r: Result<Vec<(String, i64)>, serde_bencode::Error>)
    ensures
        match r {
            Ok(v) => int_dict_decoding(b@) == Some(read_fields(v@)),
            Err(_) => int_dict_decoding(b@) is None,
        },
{
    serde_bencode::from_bytes::<BTreeMap<String, i64>>(b).map(|m| m.into_iter().collect())
}

} // verus!
