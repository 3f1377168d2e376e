//! Length-delimited framing: a four-byte big-endian length, then that many
//! bytes of payload.
//!
//! A stream socket keeps no message boundaries, so every message travels as
//! one frame, and a reader cuts the byte stream back into frames whatever the
//! sizes of the chunks it was delivered in.

use vstd::prelude::*;
use vstd::slice::slice_subrange;

verus! {

/// Bytes that the length prefix takes.
pub const PREFIX_LEN: usize = 4;

/// The four bytes of `n`, most significant first.
pub open spec fn be32(n: u32) -> Seq<u8> {
    seq![
        (n / 0x100_0000) as u8,
        (n / 0x1_0000 % 0x100) as u8,
        (n / 0x100 % 0x100) as u8,
        (n % 0x100) as u8,
    ]
}

/// The number that the first four bytes of `bytes` spell, most significant first.
pub open spec fn be32_value(bytes: Seq<u8>) -> int
    recommends
        bytes.len() >= 4,
{
    bytes[0] * 0x100_0000 + bytes[1] * 0x1_0000 + bytes[2] * 0x100 + bytes[3]
}

/// Reading a prefix gives back the number it was written from.
pub proof fn lemma_be32_value_of_be32(n: u32)
    ensures
        be32(n).len() == 4,
        be32_value(be32(n)) == n,
{
}

/// The frame that carries `payload`.
pub open spec fn frame_of(payload: Seq<u8>) -> Seq<u8>
    recommends
        payload.len() <= u32::MAX,
{
    be32(payload.len() as u32) + payload
}

/// What the front of a receive buffer holds.
#[derive(Clone, Copy, Debug, PartialEq, Eq, Structural)]
pub enum FrameScan {
    /// Not yet a whole frame: more bytes are needed.
    Incomplete,
    /// The length prefix declares more than the maximum.
    Oversized,
    /// A whole frame: its payload is the `len` bytes after the prefix.
    Ready { len: u32 },
}

/// What `buf` starts with, for a payload maximum of `max_len` bytes. The
/// declared length is held against the maximum as soon as the prefix is there,
/// before any payload byte is waited for.
pub open spec fn scan_of(buf: Seq<u8>, max_len: u32) -> FrameScan {
    if buf.len() < 4 {
        FrameScan::Incomplete
    } else if be32_value(buf) > max_len {
        FrameScan::Oversized
    } else if buf.len() < 4 + be32_value(buf) {
        FrameScan::Incomplete
    } else {
        FrameScan::Ready { len: be32_value(buf) as u32 }
    }
}

/// A buffer that starts with the frame of an admissible payload scans as that frame.
pub proof fn lemma_scan_of_frame(payload: Seq<u8>, rest: Seq<u8>, max_len: u32)
    requires
        payload.len() <= max_len,
    ensures
        scan_of(frame_of(payload) + rest, max_len) == (FrameScan::Ready {
            len: payload.len() as u32,
        }),
        (frame_of(payload) + rest).subrange(4, 4 + payload.len() as int) == payload,
        (frame_of(payload) + rest).skip(4 + payload.len() as int) == rest,
{
    let buf = frame_of(payload) + rest;
    lemma_be32_value_of_be32(payload.len() as u32);
    assert(buf[0] == be32(payload.len() as u32)[0]);
    assert(buf[1] == be32(payload.len() as u32)[1]);
    assert(buf[2] == be32(payload.len() as u32)[2]);
    assert(buf[3] == be32(payload.len() as u32)[3]);
    assert(be32_value(buf) == payload.len());
    assert(buf.subrange(4, 4 + payload.len() as int) =~= payload);
    assert(buf.skip(4 + payload.len() as int) =~= rest);
}

/// Appends the four bytes of `n`, most significant first.
pub fn push_be32(out: &mut Vec<u8>, n: u32)
    ensures
        final(out)@ == old(out)@ + be32(n),
{
    out.push((n / 0x100_0000) as u8);
    out.push((n / 0x1_0000 % 0x100) as u8);
    out.push((n / 0x100 % 0x100) as u8);
    out.push((n % 0x100) as u8);
    assert(out@ =~= old(out)@ + be32(n));
}

/// Reads the number that the first four bytes of `bytes` spell.
pub fn read_be32(bytes: &[u8]) -> (n: u32)
    requires
        bytes@.len() >= 4,
    ensures
        n == be32_value(bytes@),
{
    let b0: u32 = bytes[0] as u32;
    let b1: u32 = bytes[1] as u32;
    let b2: u32 = bytes[2] as u32;
    let b3: u32 = bytes[3] as u32;
    b0 * 0x100_0000 + b1 * 0x1_0000 + b2 * 0x100 + b3
}

/// Wraps `payload` into a frame, or gives `None` where it is longer than `max_len`.
pub fn frame(payload: &[u8], max_len: u32) -> (r: Option<Vec<u8>>)
    ensures
        r is Some <==> payload@.len() <= max_len,
        r matches Some(bytes) ==> bytes@ == frame_of(payload@),
{
    if payload.len() > max_len as usize {
        return None;
    }
    let mut out: Vec<u8> = Vec::new();
    push_be32(&mut out, payload.len() as u32);
    let ghost prefix = out@;
    out.extend_from_slice(payload);
    assert(out@ =~= prefix + payload@);
    Some(out)
}

/// Looks at the front of a receive buffer.
pub fn scan(buf: &[u8], max_len: u32) -> (r: FrameScan)
    ensures
        r == scan_of(buf@, max_len),
{
    if buf.len() < PREFIX_LEN {
        return FrameScan::Incomplete;
    }
    let declared: u32 = read_be32(buf);
    if declared > max_len {
        FrameScan::Oversized
    } else if buf.len() - PREFIX_LEN < declared as usize {
        FrameScan::Incomplete
    } else {
        FrameScan::Ready { len: declared }
    }
}

/// The payload of the frame that `scan` found ready at the front of `buf`.
pub fn payload_of(buf: &[u8], len: u32) -> (r: &[u8])
    requires
        4 + len <= buf@.len(),
    ensures
        r@ == buf@.subrange(4, 4 + len),
{
    let available = buf.len();
    assert(4 + len <= available);
    slice_subrange(buf, PREFIX_LEN, PREFIX_LEN + len as usize)
}

} // verus!
