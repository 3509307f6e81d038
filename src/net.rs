//! Length-prefixed framing of encoded snapshots on a byte stream.
//!
//! Each frame is a two-byte little-endian length followed by that many bytes of
//! payload. The receiving side keeps a byte queue across calls, so frames may
//! arrive split at any byte boundary.
use std::collections::VecDeque;

use vstd::prelude::*;

verus! {

/// Size of the length prefix in front of each frame.
pub const HEADER_LEN: usize = 2;

/// Largest payload that the two-byte prefix can announce.
pub const MAX_PAYLOAD_LEN: usize = 65535;

/// The value of two bytes read as a little-endian unsigned integer.
pub open spec fn le_u16(lo: u8, hi: u8) -> nat {
    lo as nat + 256 * (hi as nat)
}

/// The two-byte little-endian prefix announcing `n` bytes.
pub open spec fn len_prefix(n: nat) -> Seq<u8> {
    seq![(n % 256) as u8, (n / 256) as u8]
}

/// The bytes of one frame carrying `payload`.
pub open spec fn frame_of(payload: Seq<u8>) -> Seq<u8> {
    len_prefix(payload.len()) + payload
}

/// The payload length announced by the prefix at the front of `b`.
pub open spec fn declared_len(b: Seq<u8>) -> nat
    recommends
        b.len() >= 2,
{
    le_u16(b[0], b[1])
}

/// A whole frame stands at the front of `b`.
pub open spec fn has_frame(b: Seq<u8>) -> bool {
    b.len() >= HEADER_LEN && b.len() >= HEADER_LEN + declared_len(b)
}

/// The payloads of the complete frames at the front of `b`, and the bytes left
/// after them.
pub open spec fn parse_frames(b: Seq<u8>) -> (Seq<Seq<u8>>, Seq<u8>)
    decreases b.len(),
{
    if has_frame(b) {
        let end = HEADER_LEN + declared_len(b);
        let rest = parse_frames(b.subrange(end as int, b.len() as int));
        (seq![b.subrange(HEADER_LEN as int, end as int)] + rest.0, rest.1)
    } else {
        (Seq::empty(), b)
    }
}

/// Appends each chunk in turn to the queue `buffer` and takes out the complete
/// frames after each one: what a series of receive calls does.
pub open spec fn feed_chunks(buffer: Seq<u8>, chunks: Seq<Seq<u8>>) -> (Seq<Seq<u8>>, Seq<u8>)
    decreases chunks.len(),
{
    if chunks.len() == 0 {
        (Seq::empty(), buffer)
    } else {
        let first = parse_frames(buffer + chunks[0]);
        let rest = feed_chunks(first.1, chunks.drop_first());
        (first.0 + rest.0, rest.1)
    }
}

/// A payload longer than one frame can carry.
#[derive(Debug, Clone, Copy, PartialEq, Eq, Structural)]
pub struct EncodeOverflow {
    pub len: usize,
}

/// One encoded snapshot together with its length prefix.
#[derive(Debug)]
pub struct NetworkMessage {
    content_len: [u8; 2],
    buf: Vec<u8>,
}

impl NetworkMessage {
    #[verifier::type_invariant]
    spec fn prefix_matches(self) -> bool {
        &&& self.buf@.len() <= MAX_PAYLOAD_LEN
        &&& self.content_len@ == len_prefix(self.buf@.len())
    }

    /// The payload carried.
    pub closed spec fn payload(self) -> Seq<u8> {
        self.buf@
    }

    /// Frames `payload`, or refuses it when its length does not fit the prefix.
    pub fn new(payload: Vec<u8>) -> (r: Result<NetworkMessage, EncodeOverflow>)
        ensures
            match r {
                Ok(m) => payload@.len() <= MAX_PAYLOAD_LEN && m.payload() == payload@,
                Err(e) => payload@.len() > MAX_PAYLOAD_LEN && e.len == payload@.len(),
            },
    {
        let n = payload.len();
        if n > MAX_PAYLOAD_LEN {
            return Err(EncodeOverflow { len: n });
        }
        let content_len: [u8; 2] = [(n % 256) as u8, (n / 256) as u8];
        assert(content_len@ =~= len_prefix(n as nat));
        Ok(NetworkMessage { content_len, buf: payload })
    }

    /// The bytes to put on the wire: the prefix, then the payload.
    pub fn to_bytes(&self) -> (r: Vec<u8>)
        ensures
            r@ == frame_of(self.payload()),
            r@.len() <= HEADER_LEN + MAX_PAYLOAD_LEN,
    {
        proof {
            use_type_invariant(self);
        }
        let mut out: Vec<u8> = Vec::new();
        out.push(self.content_len[0]);
        out.push(self.content_len[1]);
        let mut i: usize = 0;
        while i < self.buf.len()
            invariant
                i <= self.buf@.len(),
                self.buf@.len() <= MAX_PAYLOAD_LEN,
                out@ == self.content_len@ + self.buf@.subrange(0, i as int),
            decreases self.buf@.len() - i,
        {
            out.push(self.buf[i]);
            assert(out@ =~= self.content_len@ + self.buf@.subrange(0, i + 1));
            i = i + 1;
        }
        assert(self.buf@.subrange(0, i as int) =~= self.buf@);
        out
    }
}

/// Takes every complete frame from the front of `buffer` and appends its payload
/// to `messages`. A partial frame at the end stays in `buffer` for a later call.
pub fn take_frames(buffer: &mut VecDeque<u8>, messages: &mut Vec<Vec<u8>>)
    ensures
        final(messages).deep_view() == old(messages).deep_view() + parse_frames(old(buffer)@).0,
        final(buffer)@ == parse_frames(old(buffer)@).1,
{
    let ghost taken: Seq<Seq<u8>> = Seq::empty();
    loop
        invariant
            parse_frames(old(buffer)@) == (taken + parse_frames(buffer@).0, parse_frames(buffer@).1),
            messages.deep_view() == old(messages).deep_view() + taken,
        ensures
            !has_frame(buffer@),
        decreases buffer@.len(),
    {
        if buffer.len() < HEADER_LEN {
            break;
        }
        let content_len: usize = buffer[0] as usize + 256 * (buffer[1] as usize);
        if buffer.len() < HEADER_LEN + content_len {
            break;
        }
        let ghost before = buffer@;
        buffer.pop_front();
        buffer.pop_front();
        let mut bytes: Vec<u8> = Vec::new();
        let mut i: usize = 0;
        while i < content_len
            invariant
                i <= content_len,
                HEADER_LEN + content_len <= before.len(),
                bytes@ == before.subrange(HEADER_LEN as int, HEADER_LEN + i),
                buffer@ == before.subrange(HEADER_LEN + i, before.len() as int),
            decreases content_len - i,
        {
            let b = buffer.pop_front();
            match b {
                Some(x) => {
                    bytes.push(x);
                },
                None => {},
            }
            assert(bytes@ =~= before.subrange(HEADER_LEN as int, HEADER_LEN + i + 1));
            assert(buffer@ =~= before.subrange(HEADER_LEN + i + 1, before.len() as int));
            i = i + 1;
        }
        let ghost pushed = messages.deep_view();
        assert(bytes.deep_view() =~= bytes@);
        messages.push(bytes);
        proof {
            assert(messages.deep_view() =~= pushed.push(bytes@));
            let frame = before.subrange(HEADER_LEN as int, HEADER_LEN + content_len);
            assert(has_frame(before));
            assert(parse_frames(before).0 == seq![frame] + parse_frames(buffer@).0);
            taken = taken + seq![frame];
            assert(messages.deep_view() =~= old(messages).deep_view() + taken);
        }
    }
    assert(parse_frames(buffer@).0 =~= Seq::<Seq<u8>>::empty());
    assert(taken + parse_frames(buffer@).0 =~= taken);
}

/// A frame followed by any bytes parses to its payload, then to what those bytes
/// parse to.
pub proof fn lemma_frame_round_trip(payload: Seq<u8>, rest: Seq<u8>)
    requires
        payload.len() <= MAX_PAYLOAD_LEN,
    ensures
        parse_frames(frame_of(payload) + rest) == (
            seq![payload] + parse_frames(rest).0,
            parse_frames(rest).1,
        ),
{
    let n = payload.len();
    let b = frame_of(payload) + rest;
    assert(b[0] == (n % 256) as u8);
    assert(b[1] == (n / 256) as u8);
    assert(declared_len(b) == n);
    assert(has_frame(b));
    assert(b.subrange(2, 2 + n as int) =~= payload);
    assert(b.subrange(2 + n as int, b.len() as int) =~= rest);
}

/// A queue holding just one frame gives back its payload and keeps nothing.
pub proof fn lemma_single_frame(payload: Seq<u8>)
    requires
        payload.len() <= MAX_PAYLOAD_LEN,
    ensures
        parse_frames(frame_of(payload)) == (seq![payload], Seq::<u8>::empty()),
{
    lemma_frame_round_trip(payload, Seq::empty());
    assert(frame_of(payload) + Seq::<u8>::empty() =~= frame_of(payload));
    assert(!has_frame(Seq::<u8>::empty()));
    assert(seq![payload] + Seq::<Seq<u8>>::empty() =~= seq![payload]);
}

/// A length prefix with fewer payload bytes behind it than it announces yields
/// no frame and leaves the bytes as they are.
pub proof fn lemma_partial_frame_kept(b: Seq<u8>)
    requires
        b.len() >= HEADER_LEN,
        b.len() < HEADER_LEN + declared_len(b),
    ensures
        parse_frames(b) == (Seq::<Seq<u8>>::empty(), b),
{
}

/// Parsing `a` and then the leftover of `a` followed by `b` gives the same frames,
/// in the same order, and the same leftover as parsing `a + b` at once.
pub proof fn lemma_parse_split(a: Seq<u8>, b: Seq<u8>)
    ensures
        ({
            let first = parse_frames(a);
            let second = parse_frames(first.1 + b);
            parse_frames(a + b) == (first.0 + second.0, second.1)
        }),
    decreases a.len(),
{
    let first = parse_frames(a);
    if has_frame(a) {
        let end = HEADER_LEN + declared_len(a);
        let tail = a.subrange(end as int, a.len() as int);
        let ab = a + b;
        assert(ab[0] == a[0] && ab[1] == a[1]);
        assert(has_frame(ab));
        assert(ab.subrange(HEADER_LEN as int, end as int) =~= a.subrange(HEADER_LEN as int, end as int));
        assert(ab.subrange(end as int, ab.len() as int) =~= tail + b);
        lemma_parse_split(tail, b);
        let second = parse_frames(first.1 + b);
        assert(first.0 + second.0 =~= seq![a.subrange(HEADER_LEN as int, end as int)] + (
        parse_frames(tail).0 + second.0));
    } else {
        assert(first.0 + parse_frames(a + b).0 =~= parse_frames(a + b).0);
    }
}

/// What parsing leaves behind never starts with a whole frame.
pub proof fn lemma_leftover_is_partial(b: Seq<u8>)
    ensures
        !has_frame(parse_frames(b).1),
    decreases b.len(),
{
    if has_frame(b) {
        lemma_leftover_is_partial(b.subrange((HEADER_LEN + declared_len(b)) as int, b.len() as int));
    }
}

/// Bytes received in any number of chunks, split at any boundaries, give the
/// same frames in the same order, and the same leftover, as the same bytes
/// received in one piece. The queue starts without a whole frame, as every
/// receive call leaves it.
pub proof fn lemma_fragmentation_invariance(buffer: Seq<u8>, chunks: Seq<Seq<u8>>)
    requires
        !has_frame(buffer),
    ensures
        feed_chunks(buffer, chunks) == parse_frames(buffer + chunks.flatten()),
    decreases chunks.len(),
{
    if chunks.len() == 0 {
        assert(buffer + chunks.flatten() =~= buffer);
        assert(parse_frames(buffer).0 + Seq::<Seq<u8>>::empty() =~= parse_frames(buffer).0);
    } else {
        let a = buffer + chunks[0];
        let rest = chunks.drop_first().flatten();
        assert(chunks.flatten() == chunks[0] + rest);
        assert(buffer + chunks.flatten() =~= a + rest);
        lemma_parse_split(a, rest);
        lemma_leftover_is_partial(a);
        lemma_fragmentation_invariance(parse_frames(a).1, chunks.drop_first());
    }
}

/// What a read on a non-blocking stream came back with.
#[derive(Debug, Clone, Copy, PartialEq, Eq, Structural)]
pub enum ReadOutcome {
    /// The read returned this many bytes; zero means the peer closed.
    Bytes(usize),
    /// The read was interrupted before any byte arrived.
    Interrupted,
    /// No byte is available now.
    WouldBlock,
    /// Any other error.
    Failed,
}

/// What the receiving side does after one read.
#[derive(Debug, Clone, Copy, PartialEq, Eq, Structural)]
pub enum ReadStep {
    /// Keep the bytes, if any, and read again.
    Continue,
    /// Stop reading for now; the connection stays open.
    Stop,
    /// Stop reading: the connection is closed.
    Closed,
}

/// The decision after one read: read on after data or an interruption, stop
/// when the stream would block, and report the connection closed on end of
/// stream or any other error.
pub fn after_read(outcome: ReadOutcome) -> (r: ReadStep)
    ensures
        r == (match outcome {
            ReadOutcome::Bytes(n) => if n == 0 {
                ReadStep::Closed
            } else {
                ReadStep::Continue
            },
            ReadOutcome::Interrupted => ReadStep::Continue,
            ReadOutcome::WouldBlock => ReadStep::Stop,
            ReadOutcome::Failed => ReadStep::Closed,
        }),
{
    match outcome {
        ReadOutcome::Bytes(n) => if n == 0 {
            ReadStep::Closed
        } else {
            ReadStep::Continue
        },
        ReadOutcome::Interrupted => ReadStep::Continue,
        ReadOutcome::WouldBlock => ReadStep::Stop,
        ReadOutcome::Failed => ReadStep::Closed,
    }
}

} // verus!
