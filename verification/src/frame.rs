//! The frame format: every payload travels behind an 8-byte little-endian
//! length prefix holding the payload's exact byte size, and frames follow
//! one another back to back until the peer closes the connection.
//!
//! A length read that yields no bytes at all is the clean end of the
//! connection, not an empty message. A partial length prefix, a length over
//! the payload cap, and a stream that ends inside a payload are each fatal
//! framing errors for that connection.

use vstd::bytes::*;
use vstd::prelude::*;
use vstd::slice::{slice_subrange, slice_to_vec};

use crate::codec::{
    decode_payload, encode_payload, encode_response_payload, lemma_encode_message_len,
    lemma_message_round_trip, message_fits, spec_decode_message, spec_encode_message,
    spec_encode_response, WireError, MAX_PAYLOAD_LEN,
};
use crate::msg::{Message, MessageModel, Response};

verus! {

/// One frame: the payload's size, then the payload.
pub open spec fn spec_frame(payload: Seq<u8>) -> Seq<u8>
    recommends
        payload.len() <= u64::MAX,
{
    spec_u64_to_le_bytes(payload.len() as u64) + payload
}

/// The bytes a sequence of messages puts on the wire, one frame each,
/// back to back.
pub open spec fn spec_encode_stream(ms: Seq<MessageModel>) -> Seq<u8>
    decreases ms.len(),
{
    if ms.len() == 0 {
        Seq::empty()
    } else {
        spec_frame(spec_encode_message(ms[0])) + spec_encode_stream(ms.drop_first())
    }
}

/// What taking one frame off the front of a received stream yields.
pub enum FrameStep {
    /// The stream ended cleanly before any prefix byte.
    Closed,
    /// One whole frame, and the stream that follows it.
    Payload { payload: Seq<u8>, rest: Seq<u8> },
    /// The stream is corrupt at its front.
    Broken(WireError),
}

/// Takes one frame off the front of a stream.
pub open spec fn spec_take_frame(b: Seq<u8>) -> FrameStep {
    if b.len() == 0 {
        FrameStep::Closed
    } else if b.len() < 8 {
        FrameStep::Broken(WireError::TruncatedHeader)
    } else {
        let len = spec_u64_from_le_bytes(b.subrange(0, 8)) as int;
        if len > MAX_PAYLOAD_LEN {
            FrameStep::Broken(WireError::OversizedLength)
        } else if b.len() < 8 + len {
            FrameStep::Broken(WireError::TruncatedPayload)
        } else {
            FrameStep::Payload {
                payload: b.subrange(8, 8 + len),
                rest: b.subrange(8 + len, b.len() as int),
            }
        }
    }
}

/// Reads a whole stream: the message of each frame, in order, up to the
/// clean close; or nothing, if a frame is broken or a payload malformed.
pub open spec fn spec_read_stream(b: Seq<u8>) -> Option<Seq<MessageModel>>
    decreases b.len(),
{
    match spec_take_frame(b) {
        FrameStep::Closed => Some(Seq::empty()),
        // A frame always consumes at least its prefix, so `rest` is shorter
        // than `b`; the guard carries that fact for termination.
        FrameStep::Payload { payload, rest } => if rest.len() < b.len() {
            match spec_decode_message(payload) {
                Some(m) => match spec_read_stream(rest) {
                    Some(tail) => Some(seq![m] + tail),
                    None => None,
                },
                None => None,
            }
        } else {
            None
        },
        FrameStep::Broken(_) => None,
    }
}

/// The first thing wrong with a stream, if anything: a broken frame, or the
/// first malformed payload.
pub open spec fn spec_read_stream_err(b: Seq<u8>) -> Option<WireError>
    decreases b.len(),
{
    match spec_take_frame(b) {
        FrameStep::Closed => None,
        FrameStep::Payload { payload, rest } => if rest.len() < b.len() {
            match spec_decode_message(payload) {
                Some(_) => spec_read_stream_err(rest),
                None => Some(WireError::MalformedPayload),
            }
        } else {
            None
        },
        FrameStep::Broken(e) => Some(e),
    }
}

// ---------------------------------------------------------------------------
// Executable framing.
// ---------------------------------------------------------------------------

/// Wraps payload bytes in a frame: length prefix, then the payload.
pub fn frame_payload(payload: Vec<u8>) -> (out: Vec<u8>)
    requires
        payload@.len() <= MAX_PAYLOAD_LEN,
    ensures
        out@ == spec_frame(payload@),
{
    let mut out = u64_to_le_bytes(payload.len() as u64);
    let mut p = payload;
    out.append(&mut p);
    out
}

/// Serializes one message into the frame that carries it.
pub fn encode_message(m: &Message) -> (out: Vec<u8>)
    requires
        message_fits(m@),
    ensures
        out@ == spec_frame(spec_encode_message(m@)),
{
    proof {
        lemma_encode_message_len(m@);
    }
    let payload = encode_payload(m);
    frame_payload(payload)
}

/// Serializes one response into the frame that carries it.
pub fn encode_response(r: &Response) -> (out: Vec<u8>)
    ensures
        out@ == spec_frame(spec_encode_response(*r)),
{
    let payload = encode_response_payload(r);
    frame_payload(payload)
}

/// Reads the length prefix of a frame: the exact byte size of the payload
/// that follows, refused if it exceeds the payload cap.
pub fn frame_len_from_header(h: &[u8]) -> (r: Result<usize, WireError>)
    requires
        h@.len() == 8,
    ensures
        match r {
            Ok(n) => spec_u64_from_le_bytes(h@) == n && n <= MAX_PAYLOAD_LEN,
            Err(e) => spec_u64_from_le_bytes(h@) > MAX_PAYLOAD_LEN && e
                == WireError::OversizedLength,
        },
{
    let len64 = u64_from_le_bytes(h);
    if len64 > MAX_PAYLOAD_LEN {
        Err(WireError::OversizedLength)
    } else {
        Ok(len64 as usize)
    }
}

/// What one read of a frame from a received byte buffer yields.
pub enum FrameRead {
    /// The buffer ended cleanly before any prefix byte.
    Closed,
    /// One whole frame; `next` is where the frame after it starts.
    Frame { payload: Vec<u8>, next: usize },
    /// The stream is corrupt at this point; fatal to the connection.
    Corrupt(WireError),
}

/// Takes the frame starting at `pos` from a received byte buffer. The buffer
/// stands for everything the connection carried before the peer closed it.
pub fn read_frame(buf: &[u8], pos: usize) -> (r: FrameRead)
    requires
        pos <= buf@.len(),
    ensures
        match r {
            FrameRead::Closed => spec_take_frame(buf@.skip(pos as int)) is Closed,
            FrameRead::Frame { payload, next } => {
                &&& spec_take_frame(buf@.skip(pos as int)) == (FrameStep::Payload {
                    payload: payload@,
                    rest: buf@.skip(next as int),
                })
                &&& pos < next <= buf@.len()
            },
            FrameRead::Corrupt(e) => spec_take_frame(buf@.skip(pos as int)) == FrameStep::Broken(
                e,
            ),
        },
{
    let n = buf.len();
    let ghost s = buf@.skip(pos as int);
    if pos == n {
        return FrameRead::Closed;
    }
    if n - pos < 8 {
        proof {
            assert(s.len() == n - pos);
        }
        return FrameRead::Corrupt(WireError::TruncatedHeader);
    }
    let header = slice_subrange(buf, pos, pos + 8);
    proof {
        assert(header@ =~= s.subrange(0, 8));
    }
    let len64 = u64_from_le_bytes(header);
    if len64 > MAX_PAYLOAD_LEN {
        return FrameRead::Corrupt(WireError::OversizedLength);
    }
    let len = len64 as usize;
    if n - pos - 8 < len {
        return FrameRead::Corrupt(WireError::TruncatedPayload);
    }
    let payload = slice_to_vec(slice_subrange(buf, pos + 8, pos + 8 + len));
    let next = pos + 8 + len;
    proof {
        assert(payload@ =~= s.subrange(8, 8 + len as int));
        assert(buf@.skip(next as int) =~= s.subrange(8 + len as int, s.len() as int));
    }
    FrameRead::Frame { payload, next }
}

/// Drains one connection's whole received stream, as the listener does
/// frame by frame until the peer closes: every message in order, or the
/// error that was fatal to the connection.
pub fn read_stream(buf: &[u8]) -> (r: Result<Vec<Message>, WireError>)
    ensures
        match r {
            Ok(msgs) => {
                &&& spec_read_stream(buf@) == Some(msgs@.map_values(|mm: Message| mm@))
                &&& spec_read_stream_err(buf@) is None
            },
            Err(e) => {
                &&& spec_read_stream(buf@) is None
                &&& spec_read_stream_err(buf@) == Some(e)
            },
        },
{
    let slen = buf.len();
    let mut pos: usize = 0;
    let mut msgs: Vec<Message> = Vec::new();
    proof {
        assert(buf@.skip(0) =~= buf@);
        assert(msgs@.map_values(|mm: Message| mm@) =~= Seq::<MessageModel>::empty());
    }
    loop
        invariant
            pos <= buf@.len(),
            buf@.len() == slen,
            spec_read_stream(buf@.skip(pos as int)) matches Some(tail) ==> spec_read_stream(buf@)
                == Some(msgs@.map_values(|mm: Message| mm@) + tail),
            spec_read_stream(buf@.skip(pos as int)) is None ==> spec_read_stream(buf@) is None,
            spec_read_stream_err(buf@) == spec_read_stream_err(buf@.skip(pos as int)),
        decreases buf@.len() - pos,
    {
        let ghost s = buf@.skip(pos as int);
        match read_frame(buf, pos) {
            FrameRead::Closed => {
                proof {
                    assert(spec_read_stream(s) == Some(Seq::<MessageModel>::empty()));
                    assert(msgs@.map_values(|mm: Message| mm@) + Seq::<MessageModel>::empty()
                        =~= msgs@.map_values(|mm: Message| mm@));
                    assert(spec_read_stream_err(s) is None);
                }
                return Ok(msgs);
            },
            FrameRead::Corrupt(e) => {
                proof {
                    assert(spec_read_stream(s) is None);
                    assert(spec_read_stream_err(s) == Some(e));
                }
                return Err(e);
            },
            FrameRead::Frame { payload, next } => {
                match decode_payload(payload.as_slice()) {
                    Ok(m) => {
                        proof {
                            let s2 = buf@.skip(next as int);
                            assert(s2.len() < s.len());
                            assert(spec_read_stream_err(s) == spec_read_stream_err(s2));
                            if spec_read_stream(s2) is Some {
                                let tail = spec_read_stream(s2).unwrap();
                                assert(spec_read_stream(s) == Some(seq![m@] + tail));
                                assert(msgs@.map_values(|mm: Message| mm@) + (seq![m@] + tail)
                                    =~= msgs@.push(m).map_values(|mm: Message| mm@) + tail);
                            } else {
                                assert(spec_read_stream(s) is None);
                            }
                        }
                        msgs.push(m);
                        pos = next;
                    },
                    Err(e) => {
                        proof {
                            let s2 = buf@.skip(next as int);
                            assert(s2.len() < s.len());
                            assert(spec_read_stream(s) is None);
                            assert(spec_read_stream_err(s) == Some(WireError::MalformedPayload));
                        }
                        return Err(e);
                    },
                }
            },
        }
    }
}

// ---------------------------------------------------------------------------
// The framing law.
// ---------------------------------------------------------------------------

/// Framing law: any number of messages written back to back into one stream
/// read back as the same messages in the same order, and the read after the
/// last one sees the clean close.
pub proof fn lemma_stream_round_trip(ms: Seq<MessageModel>)
    requires
        forall|i: int| 0 <= i < ms.len() ==> message_fits(#[trigger] ms[i]),
    ensures
        spec_read_stream(spec_encode_stream(ms)) == Some(ms),
    decreases ms.len(),
{
    lemma_auto_spec_u64_to_from_le_bytes();
    if ms.len() == 0 {
        assert(ms =~= Seq::<MessageModel>::empty());
    } else {
        let m = ms[0];
        assert(message_fits(m));
        lemma_message_round_trip(m);
        let payload = spec_encode_message(m);
        let b = spec_encode_stream(ms);
        let rest0 = spec_encode_stream(ms.drop_first());
        assert(b.subrange(0, 8) =~= spec_u64_to_le_bytes(payload.len() as u64));
        assert(b.subrange(8, 8 + payload.len() as int) =~= payload);
        assert(b.subrange(8 + payload.len() as int, b.len() as int) =~= rest0);
        assert(spec_take_frame(b) == (FrameStep::Payload { payload, rest: rest0 }));
        lemma_stream_round_trip(ms.drop_first());
        assert(seq![m] + ms.drop_first() =~= ms);
    }
}

} // verus!
