use vstd::prelude::*;

use crate::track::TrackInfo;

verus! {

/// Per-frame payload limit: frames beyond 20 MiB end the connection.
pub const FRAME_SIZE_LIMIT: u32 = 20 * 1024 * 1024;

/// The four big-endian bytes of a 32-bit value.
pub open spec fn be32_bytes(n: u32) -> Seq<u8> {
    seq![
        ((n >> 24) & 0xff) as u8,
        ((n >> 16) & 0xff) as u8,
        ((n >> 8) & 0xff) as u8,
        (n & 0xff) as u8,
    ]
}

/// The 32-bit value held by four big-endian bytes.
pub open spec fn be32_val(b: Seq<u8>) -> u32
    recommends
        b.len() == 4,
{
    ((b[0] as u32) << 24) | ((b[1] as u32) << 16) | ((b[2] as u32) << 8) | (b[3] as u32)
}

/// Reads the big-endian 32-bit field at offset `i`.
pub fn read_be32(b: &Vec<u8>, i: usize) -> (r: u32)
    requires
        i + 4 <= b.len(),
    ensures
        r == be32_val(b@.subrange(i as int, i as int + 4)),
{
    let r = ((b[i] as u32) << 24) | ((b[i + 1] as u32) << 16) | ((b[i + 2] as u32) << 8) | (b[i + 3]
        as u32);
    proof {
        let s = b@.subrange(i as int, i as int + 4);
        assert(s[0] == b@[i as int] && s[1] == b@[i as int + 1] && s[2] == b@[i as int + 2] && s[3]
            == b@[i as int + 3]);
    }
    r
}

/// Appends the big-endian bytes of `n`.
pub fn push_be32(out: &mut Vec<u8>, n: u32)
    ensures
        final(out)@ == old(out)@ + be32_bytes(n),
{
    out.push(((n >> 24) & 0xff) as u8);
    out.push(((n >> 16) & 0xff) as u8);
    out.push(((n >> 8) & 0xff) as u8);
    out.push((n & 0xff) as u8);
    proof {
        assert(out@ =~= old(out)@ + be32_bytes(n));
    }
}

/// The eight little-endian bytes of a 64-bit value.
pub open spec fn le64_bytes(n: u64) -> Seq<u8> {
    seq![
        (n & 0xff) as u8,
        ((n >> 8) & 0xff) as u8,
        ((n >> 16) & 0xff) as u8,
        ((n >> 24) & 0xff) as u8,
        ((n >> 32) & 0xff) as u8,
        ((n >> 40) & 0xff) as u8,
        ((n >> 48) & 0xff) as u8,
        ((n >> 56) & 0xff) as u8,
    ]
}

/// Appends the little-endian bytes of `n`.
pub fn push_le64(out: &mut Vec<u8>, n: u64)
    ensures
        final(out)@ == old(out)@ + le64_bytes(n),
{
    out.push((n & 0xff) as u8);
    out.push(((n >> 8) & 0xff) as u8);
    out.push(((n >> 16) & 0xff) as u8);
    out.push(((n >> 24) & 0xff) as u8);
    out.push(((n >> 32) & 0xff) as u8);
    out.push(((n >> 40) & 0xff) as u8);
    out.push(((n >> 48) & 0xff) as u8);
    out.push(((n >> 56) & 0xff) as u8);
    proof {
        assert(out@ =~= old(out)@ + le64_bytes(n));
    }
}

/// The request kinds of the control protocol, by op code.
#[derive(Clone, Copy, PartialEq, Eq, Structural, Debug)]
pub enum RequestType {
    EnqueueTrack,
    FastForward,
    QueueStatus,
    ReplaceFallback,
}

/// What a request frame header announces: a clean close (op code 0) or a
/// typed request with a payload of the given length.
#[derive(Clone, Copy, PartialEq, Eq, Structural, Debug)]
pub enum FrameOp {
    Close,
    Request(RequestType),
}

/// Why a request frame header was refused; each of these ends the
/// connection.
#[derive(Clone, Copy, PartialEq, Eq, Structural, Debug)]
pub enum FrameError {
    /// Fewer than the nine header bytes.
    Truncated,
    /// The version byte is not 0.
    BadVersion,
    /// The op code names no request.
    UnknownOpCode,
    /// The announced payload exceeds the frame size limit.
    Oversized,
}

/// A decoded request frame header.
#[derive(Clone, Copy, PartialEq, Eq, Structural, Debug)]
pub struct FrameHeader {
    pub op: FrameOp,
    pub length: u32,
}

/// The request named by an op code.
pub open spec fn spec_request_type(op: u32) -> Option<RequestType> {
    if op == 1 {
        Some(RequestType::EnqueueTrack)
    } else if op == 2 {
        Some(RequestType::FastForward)
    } else if op == 3 {
        Some(RequestType::QueueStatus)
    } else if op == 4 {
        Some(RequestType::ReplaceFallback)
    } else {
        None
    }
}

/// What a header byte string decodes to: version byte 0, big-endian op code
/// (0 closes), big-endian payload length within the frame limit.
pub open spec fn spec_decode_frame_header(b: Seq<u8>) -> Result<FrameHeader, FrameError> {
    if b.len() < 9 {
        Err(FrameError::Truncated)
    } else if b[0] != 0 {
        Err(FrameError::BadVersion)
    } else {
        let op = be32_val(b.subrange(1, 5));
        let length = be32_val(b.subrange(5, 9));
        if op == 0 {
            Ok(FrameHeader { op: FrameOp::Close, length })
        } else {
            match spec_request_type(op) {
                None => Err(FrameError::UnknownOpCode),
                Some(rt) => if length > FRAME_SIZE_LIMIT {
                    Err(FrameError::Oversized)
                } else {
                    Ok(FrameHeader { op: FrameOp::Request(rt), length })
                },
            }
        }
    }
}

/// Decodes the nine header bytes of a request frame.
pub fn decode_frame_header(b: &Vec<u8>) -> (r: Result<FrameHeader, FrameError>)
    ensures
        r == spec_decode_frame_header(b@),
{
    if b.len() < 9 {
        return Err(FrameError::Truncated);
    }
    if b[0] != 0 {
        return Err(FrameError::BadVersion);
    }
    let op = read_be32(b, 1);
    let length = read_be32(b, 5);
    if op == 0 {
        return Ok(FrameHeader { op: FrameOp::Close, length });
    }
    let rt = if op == 1 {
        RequestType::EnqueueTrack
    } else if op == 2 {
        RequestType::FastForward
    } else if op == 3 {
        RequestType::QueueStatus
    } else if op == 4 {
        RequestType::ReplaceFallback
    } else {
        return Err(FrameError::UnknownOpCode);
    };
    if length > FRAME_SIZE_LIMIT {
        return Err(FrameError::Oversized);
    }
    Ok(FrameHeader { op: FrameOp::Request(rt), length })
}

/// Frames a reply: the payload length as big-endian bytes, then the payload.
/// Refused only when the payload cannot be announced in 32 bits.
pub fn encode_response_frame(payload: &Vec<u8>) -> (r: Option<Vec<u8>>)
    ensures
        r is Some <==> payload@.len() <= u32::MAX,
        r is Some ==> r->Some_0@ == be32_bytes(payload@.len() as u32) + payload@,
{
    if payload.len() as u64 > 0xffff_ffffu64 {
        return None;
    }
    let mut out: Vec<u8> = Vec::new();
    push_be32(&mut out, payload.len() as u32);
    let mut i: usize = 0;
    while i < payload.len()
        invariant
            i <= payload@.len(),
            out@ == be32_bytes(payload@.len() as u32) + payload@.take(i as int),
        decreases payload@.len() - i,
    {
        out.push(payload[i]);
        i = i + 1;
        proof {
            assert(out@ =~= be32_bytes(payload@.len() as u32) + payload@.take(i as int));
        }
    }
    proof {
        assert(out@ =~= be32_bytes(payload@.len() as u32) + payload@);
    }
    Some(out)
}

/// One queue-status entry on the wire: the handle, the sample position, and
/// the start time behind a presence byte.
pub open spec fn spec_info_bytes(t: TrackInfo) -> Seq<u8> {
    le64_bytes(t.handle.0) + le64_bytes(t.sample_position) + match t.started_at {
        Some(ts) => seq![1u8] + le64_bytes(ts),
        None => seq![0u8],
    }
}

/// Serializes one queue-status entry.
pub fn encode_track_info(out: &mut Vec<u8>, t: &TrackInfo)
    ensures
        final(out)@ == old(out)@ + spec_info_bytes(*t),
{
    push_le64(out, t.handle.0);
    push_le64(out, t.sample_position);
    match t.started_at {
        Some(ts) => {
            out.push(1);
            push_le64(out, ts);
        },
        None => {
            out.push(0);
        },
    }
    proof {
        assert(out@ =~= old(out)@ + spec_info_bytes(*t));
    }
}

} // verus!
