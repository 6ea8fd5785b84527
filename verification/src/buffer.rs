use bytes::{Buf, BufMut, BytesMut};
use vstd::prelude::*;

verus! {

/// `bytes::BytesMut`, carried as an opaque value.
#[verifier::external_type_specification]
#[verifier::external_body]
pub struct ExBytesMut(BytesMut);

/// The bytes that a buffer holds, first to last: what `&buf[..]` shows.
pub uninterp spec fn buffered(b: BytesMut) -> Seq<u8>;

/// `BytesMut::len`: the number of bytes held.
#[verifier::external_body]
pub(crate) fn buf_len(b: &BytesMut) -> (n: usize)
    ensures
        n == buffered(*b).len(),
{
    b.len()
}

/// Indexing a `BytesMut` through its slice: the byte at position `i`. Out of
/// range it panics, so the range is demanded.
#[verifier::external_body]
pub(crate) fn buf_get(b: &BytesMut, i: usize) -> (x: u8)
    requires
        i < buffered(*b).len(),
    ensures
        x == buffered(*b)[i as int],
{
    b[i]
}

/// Slicing a `BytesMut` and `to_vec` on the slice: a copy of the bytes from
/// `from` up to `to`. A bad range panics, so a good one is demanded.
#[verifier::external_body]
pub(crate) fn buf_copy(b: &BytesMut, from: usize, to: usize) -> (v: Vec<u8>)
    requires
        from <= to <= buffered(*b).len(),
    ensures
        v@ == buffered(*b).subrange(from as int, to as int),
{
    b[from..to].to_vec()
}

/// `Buf::advance` on a `BytesMut`: drops the first `n` bytes and keeps the
/// rest. It panics when asked to drop more than is held.
#[verifier::external_body]
pub(crate) fn buf_advance(b: &mut BytesMut, n: usize)
    requires
        n <= buffered(*old(b)).len(),
    ensures
        buffered(*final(b)) == buffered(*old(b)).skip(n as int),
{
    b.advance(n)
}

/// `BytesMut::reserve`: makes room and leaves the contents alone. It panics
/// when the capacity asked for overflows, which the bound rules out.
#[verifier::external_body]
pub(crate) fn buf_reserve(b: &mut BytesMut, additional: usize)
    requires
        buffered(*old(b)).len() + additional <= isize::MAX,
    ensures
        buffered(*final(b)) == buffered(*old(b)),
{
    b.reserve(additional)
}

/// `BytesMut::extend_from_slice`: appends the slice. It reserves first, hence
/// the same bound as for `reserve`.
#[verifier::external_body]
pub(crate) fn buf_extend(b: &mut BytesMut, bytes: &[u8])
    requires
        buffered(*old(b)).len() + bytes@.len() <= isize::MAX,
    ensures
        buffered(*final(b)) == buffered(*old(b)) + bytes@,
{
    b.extend_from_slice(bytes)
}

/// `BufMut::put_u8` on a `BytesMut`: appends one byte, growing the buffer as
/// `extend_from_slice` does.
#[verifier::external_body]
pub(crate) fn buf_put_u8(b: &mut BytesMut, x: u8)
    requires
        buffered(*old(b)).len() + 1 <= isize::MAX,
    ensures
        buffered(*final(b)) == buffered(*old(b)).push(x),
{
    b.put_u8(x)
}

} // verus!
