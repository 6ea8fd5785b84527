use crate::message::{MyPeerMsgTag, PeerMsgView, MAX_PAYLOAD};
use vstd::prelude::*;

verus! {

/// Width of the length prefix.
pub const LEN_BYTE: usize = 4;

/// The first four bytes of `s` read as a big-endian unsigned number.
pub open spec fn be32(s: Seq<u8>) -> int
    recommends
        s.len() >= 4,
{
    (s[0] as int) * 16777216 + (s[1] as int) * 65536 + (s[2] as int) * 256 + (s[3] as int)
}

/// The four bytes that hold `n` in big-endian order.
pub open spec fn be32_bytes(n: nat) -> Seq<u8>
    recommends
        n < 4294967296,
{
    seq![
        (n / 16777216) as u8,
        ((n / 65536) % 256) as u8,
        ((n / 256) % 256) as u8,
        (n % 256) as u8,
    ]
}

/// The frame of a message: length prefix, tag byte, payload.
pub open spec fn frame(m: PeerMsgView) -> Seq<u8> {
    be32_bytes(1 + m.payload.len()) + seq![m.tag.byte()] + m.payload
}

/// `n` keep-alive frames in a row.
pub open spec fn keep_alives(n: nat) -> Seq<u8>
    decreases n,
{
    if n == 0 {
        Seq::empty()
    } else {
        seq![0u8, 0u8, 0u8, 0u8] + keep_alives((n - 1) as nat)
    }
}

/// `s` without the keep-alive frames that it starts with.
pub open spec fn skip_keep_alives(s: Seq<u8>) -> Seq<u8>
    decreases s.len(),
{
    if s.len() >= 4 && be32(s) == 0 {
        skip_keep_alives(s.skip(4))
    } else {
        s
    }
}

/// What the bytes at the head of a buffer amount to.
pub ghost enum Framing {
    /// No whole frame is there yet.
    NeedMore,
    /// The length prefix declares more payload than the limit.
    TooLong,
    /// A whole frame is there and its tag byte names no tag.
    UnknownTag,
    /// A whole, well-formed frame is there.
    Message(PeerMsgView),
}

/// What the head of `s` amounts to, for an `s` that starts with no keep-alive.
pub open spec fn first_frame(s: Seq<u8>) -> Framing {
    if s.len() < 4 || be32(s) == 0 {
        Framing::NeedMore
    } else if be32(s) - 1 > MAX_PAYLOAD {
        Framing::TooLong
    } else if s.len() < 4 + be32(s) {
        Framing::NeedMore
    } else {
        match MyPeerMsgTag::of_byte(s[4]) {
            None => Framing::UnknownTag,
            Some(tag) => Framing::Message(
                PeerMsgView { tag, payload: s.subrange(5, 4 + be32(s)) },
            ),
        }
    }
}

/// What is left of `s` once its first frame has been taken: a message's frame
/// is removed, anything else stays.
pub open spec fn after_first(s: Seq<u8>) -> Seq<u8> {
    if first_frame(s) is Message {
        s.skip(4 + be32(s))
    } else {
        s
    }
}

/// One decoding step on a buffer that holds `s`: the outcome, and the bytes
/// that stay buffered. Leading keep-alives are dropped whatever follows them.
pub open spec fn decoded(s: Seq<u8>) -> (Framing, Seq<u8>) {
    let rest = skip_keep_alives(s);
    (first_frame(rest), after_first(rest))
}

/// All chunks in order, as one sequence.
pub open spec fn concat(chunks: Seq<Seq<u8>>) -> Seq<u8>
    decreases chunks.len(),
{
    if chunks.len() == 0 {
        Seq::empty()
    } else {
        chunks[0] + concat(chunks.drop_first())
    }
}

/// Feeding `chunks` one at a time to a buffer that holds `buf`, with a decoding
/// step after each, until a step yields something other than "need more".
pub open spec fn fed(buf: Seq<u8>, chunks: Seq<Seq<u8>>) -> (Framing, Seq<u8>)
    decreases chunks.len(),
{
    if chunks.len() == 0 {
        (Framing::NeedMore, buf)
    } else {
        let step = decoded(buf + chunks[0]);
        if step.0 is NeedMore {
            fed(step.1, chunks.drop_first())
        } else {
            step
        }
    }
}

/// Reading back the four bytes written for `n` gives `n`.
pub proof fn lemma_be32_of_bytes(n: nat)
    requires
        n < 4294967296,
    ensures
        be32(be32_bytes(n)) == n,
        be32_bytes(n).len() == 4,
{
}

/// The parts of a frame, by position.
pub proof fn lemma_frame_parts(m: PeerMsgView)
    requires
        m.payload.len() <= MAX_PAYLOAD,
    ensures
        frame(m).len() == 5 + m.payload.len(),
        be32(frame(m)) == 1 + m.payload.len(),
        frame(m)[4] == m.tag.byte(),
        frame(m).subrange(5, 5 + m.payload.len() as int) == m.payload,
{
    let n: nat = 1 + m.payload.len();
    lemma_be32_of_bytes(n);
    let f = frame(m);
    assert(f[0] == be32_bytes(n)[0]);
    assert(f[1] == be32_bytes(n)[1]);
    assert(f[2] == be32_bytes(n)[2]);
    assert(f[3] == be32_bytes(n)[3]);
    assert(f.subrange(5, 5 + m.payload.len() as int) =~= m.payload);
}

/// Round trip: the frame of a message whose payload is within the limit decodes
/// to that message, and nothing stays buffered.
pub proof fn law_round_trip(m: PeerMsgView)
    requires
        m.payload.len() <= MAX_PAYLOAD,
    ensures
        decoded(frame(m)) == (Framing::Message(m), Seq::<u8>::empty()),
{
    lemma_frame_parts(m);
    MyPeerMsgTag::tag_byte_round_trip(m.tag, 0);
    let f = frame(m);
    assert(skip_keep_alives(f) == f);
    assert(f.skip(5 + m.payload.len() as int) =~= Seq::<u8>::empty());
}

/// A proper prefix of a frame is never enough: the step asks for more and
/// leaves the buffer as it is.
pub proof fn lemma_prefix_needs_more(m: PeerMsgView, k: int)
    requires
        m.payload.len() <= MAX_PAYLOAD,
        0 <= k < frame(m).len(),
    ensures
        decoded(frame(m).take(k)) == (Framing::NeedMore, frame(m).take(k)),
{
    lemma_frame_parts(m);
    let f = frame(m);
    let p = f.take(k);
    if k >= 4 {
        assert(p[0] == f[0] && p[1] == f[1] && p[2] == f[2] && p[3] == f[3]);
        assert(be32(p) == be32(f));
    }
    assert(skip_keep_alives(p) == p);
}

proof fn lemma_fed_prefix(m: PeerMsgView, buf: Seq<u8>, chunks: Seq<Seq<u8>>)
    requires
        m.payload.len() <= MAX_PAYLOAD,
        buf + concat(chunks) == frame(m),
        buf.len() < frame(m).len(),
    ensures
        fed(buf, chunks) == (Framing::Message(m), Seq::<u8>::empty()),
    decreases chunks.len(),
{
    let f = frame(m);
    if chunks.len() == 0 {
        assert(buf + Seq::<u8>::empty() =~= buf);
    } else {
        let next = buf + chunks[0];
        let tail = chunks.drop_first();
        assert(next + concat(tail) =~= buf + concat(chunks));
        if next.len() == f.len() {
            assert(next =~= f);
            law_round_trip(m);
        } else {
            assert(next =~= f.take(next.len() as int));
            lemma_prefix_needs_more(m, next.len() as int);
            lemma_fed_prefix(m, next, tail);
        }
    }
}

/// Fragmentation invariance: however the frame of a message is cut into chunks,
/// feeding them one at a time into an empty buffer ends with the same message
/// as decoding the whole frame, and nothing stays buffered.
pub proof fn law_fragmentation(m: PeerMsgView, chunks: Seq<Seq<u8>>)
    requires
        m.payload.len() <= MAX_PAYLOAD,
        concat(chunks) == frame(m),
    ensures
        fed(Seq::empty(), chunks) == decoded(frame(m)),
        fed(Seq::empty(), chunks) == (Framing::Message(m), Seq::<u8>::empty()),
{
    lemma_frame_parts(m);
    law_round_trip(m);
    assert(Seq::<u8>::empty() + concat(chunks) =~= concat(chunks));
    lemma_fed_prefix(m, Seq::empty(), chunks);
}

/// Dropping keep-alives twice drops no more than dropping them once.
pub proof fn lemma_skip_keep_alives_once(s: Seq<u8>)
    ensures
        skip_keep_alives(skip_keep_alives(s)) == skip_keep_alives(s),
    decreases s.len(),
{
    if s.len() >= 4 && be32(s) == 0 {
        lemma_skip_keep_alives_once(s.skip(4));
    }
}

/// Asking again without new bytes changes nothing: a step that yields no
/// message gives, repeated on what it left, the same outcome and leaves the
/// same bytes.
pub proof fn law_retry_is_stable(s: Seq<u8>)
    ensures
        !(decoded(s).0 is Message) ==> decoded(decoded(s).1) == decoded(s),
{
    lemma_skip_keep_alives_once(s);
}

/// A message that a step yields has a payload within the limit.
pub proof fn law_decoded_payload_fits(s: Seq<u8>)
    ensures
        decoded(s).0 matches Framing::Message(m) ==> m.payload.len() <= MAX_PAYLOAD,
{
}

/// Keep-alives in front of anything are dropped by the decoding step.
pub proof fn lemma_keep_alives_skipped(n: nat, s: Seq<u8>)
    ensures
        skip_keep_alives(keep_alives(n) + s) == skip_keep_alives(s),
    decreases n,
{
    if n == 0 {
        assert(keep_alives(0) + s =~= s);
    } else {
        let all = keep_alives(n) + s;
        let fewer = keep_alives((n - 1) as nat) + s;
        assert(all =~= seq![0u8, 0u8, 0u8, 0u8] + fewer);
        assert(be32(all) == 0);
        assert(all.skip(4) =~= fewer);
        lemma_keep_alives_skipped((n - 1) as nat, s);
    }
}

/// Keep-alive transparency: any number of keep-alives followed by the frame of
/// a message decodes to exactly that message, with everything consumed.
pub proof fn law_keep_alive_transparency(n: nat, m: PeerMsgView)
    requires
        m.payload.len() <= MAX_PAYLOAD,
    ensures
        decoded(keep_alives(n) + frame(m)) == (Framing::Message(m), Seq::<u8>::empty()),
{
    lemma_keep_alives_skipped(n, frame(m));
    law_round_trip(m);
}

/// The payload limit is sharp: a length prefix that declares more than
/// `MAX_PAYLOAD` payload bytes is refused as soon as it is buffered, whatever
/// follows it, and nothing is consumed; a frame with exactly `MAX_PAYLOAD`
/// payload bytes decodes.
pub proof fn law_payload_boundary(s: Seq<u8>, m: PeerMsgView)
    ensures
        s.len() >= 4 && be32(s) > 1 + MAX_PAYLOAD ==> decoded(s) == (Framing::TooLong, s),
        m.payload.len() == MAX_PAYLOAD ==> decoded(frame(m)) == (
            Framing::Message(m),
            Seq::<u8>::empty(),
        ),
{
    if m.payload.len() == MAX_PAYLOAD {
        law_round_trip(m);
    }
    if s.len() >= 4 && be32(s) > 1 + MAX_PAYLOAD {
        assert(skip_keep_alives(s) == s);
    }
}

} // verus!
