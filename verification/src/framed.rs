use crate::buffer::{
    buf_advance, buf_copy, buf_extend, buf_get, buf_len, buf_put_u8, buf_reserve, buffered,
};
use crate::message::{MyPeerMsg, MyPeerMsgTag, PeerMsgView, MAX_PAYLOAD};
use crate::wire::{
    be32, be32_bytes, decoded, frame, law_round_trip, skip_keep_alives, Framing, LEN_BYTE,
};
use bytes::BytesMut;
use vstd::prelude::*;

verus! {

/// Why a frame could not be read or written.
#[derive(Debug, Clone, Copy, PartialEq, Eq, Structural)]
pub enum MyPeerMsgError {
    /// A length prefix declares a payload above `MAX_PAYLOAD`.
    MalformedFrame,
    /// A buffered frame carries a tag byte that names no tag.
    UnknownTag,
    /// A message handed to `encode` has a payload above `MAX_PAYLOAD`.
    PayloadTooLarge,
    /// The output buffer is too long already to take another frame.
    BufferFull,
}

/// The codec between a byte buffer and peer messages. It keeps no state of its
/// own: all that is pending lives in the buffer.
pub struct MyPeerMsgFramed;

/// A buffer that holds `held` can take the frame of `m` without growing past
/// what one allocation may hold.
pub open spec fn has_room(held: Seq<u8>, m: PeerMsgView) -> bool {
    held.len() + m.payload.len() + 5 <= isize::MAX
}

/// The length prefix at the head of the buffer.
fn peek_len(src: &BytesMut) -> (len: u64)
    requires
        buffered(*src).len() >= 4,
    ensures
        len == be32(buffered(*src)),
{
    let b0: u64 = buf_get(src, 0) as u64;
    let b1: u64 = buf_get(src, 1) as u64;
    let b2: u64 = buf_get(src, 2) as u64;
    let b3: u64 = buf_get(src, 3) as u64;
    b0 * 16777216 + b1 * 65536 + b2 * 256 + b3
}

/// The four big-endian bytes of a length.
fn len_bytes(n: u32) -> (bytes: [u8; 4])
    ensures
        bytes@ == be32_bytes(n as nat),
{
    let bytes: [u8; 4] = [
        (n / 16777216) as u8,
        ((n / 65536) % 256) as u8,
        ((n / 256) % 256) as u8,
        (n % 256) as u8,
    ];
    assert(bytes@ =~= be32_bytes(n as nat));
    bytes
}

impl MyPeerMsgFramed {
    /// Takes the next message off the front of `src`.
    ///
    /// Keep-alives at the front are always dropped. Then: a length prefix that
    /// declares a payload above `MAX_PAYLOAD` is an error at once; with no
    /// whole frame buffered the answer is `Ok(None)`; a whole frame with a
    /// known tag is removed and returned, and one with an unknown tag is an
    /// error. On an error the offending frame stays where it is.
    pub fn decode(&mut self, src: &mut BytesMut) -> (r: Result<Option<MyPeerMsg>, MyPeerMsgError>)
        ensures
            buffered(*final(src)) == decoded(buffered(*old(src))).1,
            match r {
                Ok(None) => decoded(buffered(*old(src))).0 is NeedMore,
                Ok(Some(m)) => decoded(buffered(*old(src))).0 == Framing::Message(m@),
                Err(MyPeerMsgError::MalformedFrame) => decoded(buffered(*old(src))).0 is TooLong,
                Err(MyPeerMsgError::UnknownTag) => decoded(buffered(*old(src))).0 is UnknownTag,
                Err(MyPeerMsgError::PayloadTooLarge) => false,
                Err(MyPeerMsgError::BufferFull) => false,
            },
            r matches Ok(Some(m)) ==> m.fits(),
    {
        loop
            invariant
                skip_keep_alives(buffered(*src)) == skip_keep_alives(buffered(*old(src))),
            decreases buffered(*src).len(),
        {
            let total_len: usize = buf_len(src);
            if total_len < LEN_BYTE {
                return Ok(None);
            }
            let len: u64 = peek_len(src);
            if len == 0 {
                buf_advance(src, LEN_BYTE);
                continue ;
            }
            if len - 1 > MAX_PAYLOAD as u64 {
                return Err(MyPeerMsgError::MalformedFrame);
            }
            let expected_len: usize = LEN_BYTE + len as usize;
            if total_len < expected_len {
                buf_reserve(src, expected_len - total_len);
                return Ok(None);
            }
            let tag = match MyPeerMsgTag::from_u8(buf_get(src, LEN_BYTE)) {
                Some(tag) => tag,
                None => {
                    return Err(MyPeerMsgError::UnknownTag);
                },
            };
            let payload = buf_copy(src, LEN_BYTE + 1, expected_len);
            buf_advance(src, expected_len);
            return Ok(Some(MyPeerMsg { tag, payload }));
        }
    }

    /// Appends the frame of `item` to `dst`, or refuses a payload above
    /// `MAX_PAYLOAD` and leaves `dst` as it was. What is written into an empty
    /// buffer decodes to `item` again, with nothing left over.
    pub fn encode(&mut self, item: MyPeerMsg, dst: &mut BytesMut) -> (r: Result<
        (),
        MyPeerMsgError,
    >)
        requires
            has_room(buffered(*old(dst)), item@),
        ensures
            item.payload@.len() <= MAX_PAYLOAD ==> r is Ok && buffered(*final(dst)) == buffered(
                *old(dst),
            ) + frame(item@),
            item.payload@.len() > MAX_PAYLOAD ==> r == Err::<(), MyPeerMsgError>(
                MyPeerMsgError::PayloadTooLarge,
            ) && buffered(*final(dst)) == buffered(*old(dst)),
            item.payload@.len() <= MAX_PAYLOAD && buffered(*old(dst)).len() == 0 ==> decoded(
                buffered(*final(dst)),
            ) == (Framing::Message(item@), Seq::<u8>::empty()),
    {
        let payload_len: usize = item.payload.len();
        if payload_len > MAX_PAYLOAD {
            return Err(MyPeerMsgError::PayloadTooLarge);
        }
        let prefix: [u8; 4] = len_bytes((payload_len + 1) as u32);
        buf_reserve(dst, LEN_BYTE + 1 + payload_len);
        buf_extend(dst, prefix.as_slice());
        buf_put_u8(dst, item.tag.to_u8());
        buf_extend(dst, item.payload.as_slice());
        proof {
            assert(buffered(*dst) =~= buffered(*old(dst)) + frame(item@));
            if buffered(*old(dst)).len() == 0 {
                assert(buffered(*dst) =~= frame(item@));
                law_round_trip(item@);
            }
        }
        Ok(())
    }

    /// `encode` for a buffer of any length: where there is no room for the
    /// frame, nothing is written and the answer is `BufferFull`.
    pub fn encode_checked(&mut self, item: MyPeerMsg, dst: &mut BytesMut) -> (r: Result<
        (),
        MyPeerMsgError,
    >)
        ensures
            !has_room(buffered(*old(dst)), item@) ==> r == Err::<(), MyPeerMsgError>(
                MyPeerMsgError::BufferFull,
            ) && buffered(*final(dst)) == buffered(*old(dst)),
            has_room(buffered(*old(dst)), item@) && item.payload@.len() <= MAX_PAYLOAD ==> r is Ok
                && buffered(*final(dst)) == buffered(*old(dst)) + frame(item@),
            has_room(buffered(*old(dst)), item@) && item.payload@.len() > MAX_PAYLOAD ==> r
                == Err::<(), MyPeerMsgError>(MyPeerMsgError::PayloadTooLarge) && buffered(
                *final(dst),
            ) == buffered(*old(dst)),
    {
        let limit: usize = isize::MAX as usize;
        let held: usize = buf_len(dst);
        let payload_len: usize = item.payload.len();
        if payload_len > limit - 5 || held > limit - 5 - payload_len {
            return Err(MyPeerMsgError::BufferFull);
        }
        self.encode(item, dst)
    }
}

} // verus!
