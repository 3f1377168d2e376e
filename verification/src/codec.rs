//! The wire codec: a `Message` to one frame and back.
//!
//! A frame is a four-byte big-endian length followed by that many bytes of
//! UTF-8 text, and the text is a JSON object with the members `body`, `date`
//! and `author`. `encode` hands out a frame only after it has read its own
//! payload back to the message it started from, so whatever it returns,
//! `decode` turns into that message again.

use crate::frame::{
    frame, frame_of, lemma_scan_of_frame, payload_of, scan, scan_of, FrameScan, PREFIX_LEN,
};
use crate::json::{
    json_string, json_text_at, json_u64_at, payload_string, payload_text, quote, text_at, u64_at,
    utf8_text,
};
use crate::message::{message_views, Message, MessageView, Timestamp, NANOS_PER_SEC};
use vstd::prelude::*;
use vstd::slice::slice_subrange;
use vstd::string::*;
use vstd::utf8::{decode_utf8, encode_utf8, encode_utf8_decode_utf8, valid_utf8};

verus! {

/// The payload maximum of `Codec::default`, in bytes.
pub const DEFAULT_MAX_PAYLOAD_LEN: u32 = 65_536;

/// Why bytes were not read as a message.
#[derive(Clone, Copy, Debug, PartialEq, Eq, Structural)]
pub enum DecodeError {
    /// Fewer bytes than the length prefix, or than the prefix declares.
    Truncated,
    /// The length prefix declares more than the maximum.
    TooLarge,
    /// Bytes follow the frame.
    TrailingBytes,
    /// The payload is not UTF-8.
    InvalidUtf8,
    /// The payload is no JSON object with a string `body`, a string `author`
    /// and a `date` that holds whole seconds and a nanosecond part under one
    /// second.
    InvalidPayload,
}

/// Why a message was not written as a frame.
#[derive(Clone, Copy, Debug, PartialEq, Eq, Structural)]
pub enum EncodeError {
    /// The payload would be longer than the maximum.
    TooLarge,
    /// The message has no payload that reads back as the message: one of
    /// its strings could not be quoted, or what was written does not decode
    /// to the same text, instant and author.
    NotReadable,
}

/// The message that four fields read from a payload make, where all four are
/// there and the nanosecond part is under one second.
pub open spec fn message_of_fields(
    body: Option<Seq<char>>,
    secs: Option<u64>,
    nanos: Option<u64>,
    author: Option<Seq<char>>,
) -> Option<MessageView> {
    if body is Some && secs is Some && nanos is Some && author is Some && nanos->0
        < NANOS_PER_SEC {
        Some(
            MessageView {
                body: body->0,
                date: Timestamp {
                    secs_since_epoch: secs->0,
                    nanos_since_epoch: nanos->0 as u32,
                },
                author: author->0,
            },
        )
    } else {
        None
    }
}

/// The message that the payload text `doc` holds.
pub open spec fn message_of_text(doc: Seq<char>) -> Option<MessageView> {
    message_of_fields(
        json_text_at(doc, "/body"@),
        json_u64_at(doc, "/date/secs_since_epoch"@),
        json_u64_at(doc, "/date/nanos_since_epoch"@),
        json_text_at(doc, "/author"@),
    )
}

/// What a payload decodes to.
pub open spec fn message_of_payload(payload: Seq<u8>) -> Result<MessageView, DecodeError> {
    if !valid_utf8(payload) {
        Err(DecodeError::InvalidUtf8)
    } else {
        match message_of_text(decode_utf8(payload)) {
            Some(m) => Ok(m),
            None => Err(DecodeError::InvalidPayload),
        }
    }
}

/// The payload that is written for a message, where both of its strings can be quoted.
pub open spec fn payload_of_message(m: MessageView) -> Option<Seq<u8>> {
    match (json_string(m.body), json_string(m.author)) {
        (Some(body), Some(author)) => Some(
            encode_utf8(
                payload_text(body, m.date.secs_since_epoch, m.date.nanos_since_epoch, author),
            ),
        ),
        _ => None,
    }
}

/// What `bytes`, taken as exactly one frame, decode to under a payload maximum of `max_len`.
pub open spec fn decode_spec(bytes: Seq<u8>, max_len: u32) -> Result<MessageView, DecodeError> {
    match scan_of(bytes, max_len) {
        FrameScan::Incomplete => Err(DecodeError::Truncated),
        FrameScan::Oversized => Err(DecodeError::TooLarge),
        FrameScan::Ready { len } => if 4 + len < bytes.len() {
            Err(DecodeError::TrailingBytes)
        } else {
            message_of_payload(bytes.subrange(4, 4 + len))
        },
    }
}

/// What a message encodes to under a payload maximum of `max_len`.
pub open spec fn encode_spec(m: MessageView, max_len: u32) -> Result<Seq<u8>, EncodeError> {
    match payload_of_message(m) {
        None => Err(EncodeError::NotReadable),
        Some(payload) => if payload.len() > max_len {
            Err(EncodeError::TooLarge)
        } else if message_of_payload(payload) != Ok::<MessageView, DecodeError>(m) {
            Err(EncodeError::NotReadable)
        } else {
            Ok(frame_of(payload))
        },
    }
}

/// The characters of a string that may be missing.
pub open spec fn text_of(text: Option<String>) -> Option<Seq<char>> {
    match text {
        Some(t) => Some(t@),
        None => None,
    }
}

/// What the front of a byte stream yields: the messages of its whole frames,
/// up to the first frame that cannot be read, and what is left behind them.
pub struct Drained {
    /// The messages of the frames that were read, in their order.
    pub messages: Seq<MessageView>,
    /// The bytes behind the last frame that was read.
    pub rest: Seq<u8>,
    /// Why the frame at the front of `rest` cannot be read, where it cannot.
    /// `None` where `rest` only waits for more bytes.
    pub error: Option<DecodeError>,
}

/// Cuts `buf` into frames from the front and decodes each, until the bytes
/// that are left are no whole frame, or a frame declares too much, or a
/// payload does not decode.
pub open spec fn drain_spec(buf: Seq<u8>, max_len: u32) -> Drained
    decreases buf.len(),
{
    match scan_of(buf, max_len) {
        FrameScan::Incomplete => Drained { messages: Seq::empty(), rest: buf, error: None },
        FrameScan::Oversized => Drained {
            messages: Seq::empty(),
            rest: buf,
            error: Some(DecodeError::TooLarge),
        },
        FrameScan::Ready { len } => match message_of_payload(buf.subrange(4, 4 + len)) {
            Err(e) => Drained { messages: Seq::empty(), rest: buf, error: Some(e) },
            Ok(m) => {
                let tail = drain_spec(buf.skip(4 + len), max_len);
                Drained { messages: seq![m] + tail.messages, rest: tail.rest, error: tail.error }
            },
        },
    }
}

/// What `Codec::drain` found at the front of a buffer.
pub struct Decoded {
    /// The messages of the frames that were read, in their order.
    pub messages: Vec<Message>,
    /// How many bytes of the buffer those frames took.
    pub consumed: usize,
    /// Why the frame behind them cannot be read, where it cannot.
    pub error: Option<DecodeError>,
}

/// Builds the message from the four fields that were looked up in a payload.
pub fn message_from_fields(
    body: Option<String>,
    secs: Option<u64>,
    nanos: Option<u64>,
    author: Option<String>,
) -> (r: Result<Message, DecodeError>)
    ensures
        match r {
            Ok(m) => message_of_fields(text_of(body), secs, nanos, text_of(author)) == Some(m@),
            Err(e) => e == DecodeError::InvalidPayload && message_of_fields(
                text_of(body),
                secs,
                nanos,
                text_of(author),
            ) is None,
        },
{
    match (body, secs, nanos, author) {
        (Some(body), Some(secs), Some(nanos), Some(author)) => {
            if nanos < NANOS_PER_SEC as u64 {
                Ok(
                    Message {
                        body,
                        date: Timestamp {
                            secs_since_epoch: secs,
                            nanos_since_epoch: nanos as u32,
                        },
                        author,
                    },
                )
            } else {
                Err(DecodeError::InvalidPayload)
            }
        },
        _ => Err(DecodeError::InvalidPayload),
    }
}

/// Reads the message that a payload holds.
pub fn decode_payload(payload: &[u8]) -> (r: Result<Message, DecodeError>)
    ensures
        match r {
            Ok(m) => message_of_payload(payload@) == Ok::<MessageView, DecodeError>(m@),
            Err(e) => message_of_payload(payload@) == Err::<MessageView, DecodeError>(e),
        },
{
    let text = match utf8_text(payload) {
        Some(text) => text,
        None => {
            return Err(DecodeError::InvalidUtf8);
        },
    };
    proof {
        encode_utf8_decode_utf8(text@);
    }
    let body = text_at(text, "/body");
    let secs = u64_at(text, "/date/secs_since_epoch");
    let nanos = u64_at(text, "/date/nanos_since_epoch");
    let author = text_at(text, "/author");
    message_from_fields(body, secs, nanos, author)
}

/// The wire codec, set up with the longest payload it writes or accepts.
#[derive(Clone, Copy, Debug, PartialEq, Eq, Structural)]
pub struct Codec {
    pub max_payload_len: u32,
}

impl Codec {
    /// A codec whose payloads hold at most `max_payload_len` bytes.
    pub fn new(max_payload_len: u32) -> (r: Self)
        ensures
            r.max_payload_len == max_payload_len,
    {
        Codec { max_payload_len }
    }

    /// Writes `msg` as one frame.
    pub fn encode(&self, msg: &Message) -> (r: Result<Vec<u8>, EncodeError>)
        ensures
            match r {
                Ok(bytes) => encode_spec(msg@, self.max_payload_len) == Ok::<
                    Seq<u8>,
                    EncodeError,
                >(bytes@),
                Err(e) => encode_spec(msg@, self.max_payload_len) == Err::<Seq<u8>, EncodeError>(
                    e,
                ),
            },
    {
        let body = match quote(msg.body.as_str()) {
            Some(quoted) => quoted,
            None => {
                return Err(EncodeError::NotReadable);
            },
        };
        let author = match quote(msg.author.as_str()) {
            Some(quoted) => quoted,
            None => {
                return Err(EncodeError::NotReadable);
            },
        };
        let text = payload_string(
            body.as_str(),
            msg.date.secs_since_epoch,
            msg.date.nanos_since_epoch,
            author.as_str(),
        );
        let payload = text.as_str().as_bytes();
        if payload.len() > self.max_payload_len as usize {
            return Err(EncodeError::TooLarge);
        }
        match decode_payload(payload) {
            Ok(read_back) => {
                if !read_back.same(msg) {
                    return Err(EncodeError::NotReadable);
                }
            },
            Err(_) => {
                return Err(EncodeError::NotReadable);
            },
        }
        match frame(payload, self.max_payload_len) {
            Some(bytes) => Ok(bytes),
            None => Err(EncodeError::TooLarge),
        }
    }

    /// Reads every whole frame at the front of `buf`, and stops at the first
    /// that cannot be read.
    pub fn drain(&self, buf: &[u8]) -> (r: Decoded)
        ensures
            message_views(r.messages@) == drain_spec(buf@, self.max_payload_len).messages,
            r.consumed <= buf@.len(),
            buf@.skip(r.consumed as int) == drain_spec(buf@, self.max_payload_len).rest,
            r.error == drain_spec(buf@, self.max_payload_len).error,
    {
        let max_len = self.max_payload_len;
        let mut messages: Vec<Message> = Vec::new();
        let mut consumed: usize = 0;
        let mut error: Option<DecodeError> = None;
        let mut done = false;
        assert(buf@.skip(0) =~= buf@);
        assert(message_views(messages@) =~= Seq::<MessageView>::empty());
        while !done
            invariant
                consumed <= buf@.len(),
                !done ==> error is None,
                !done ==> ({
                    let tail = drain_spec(buf@.skip(consumed as int), max_len);
                    drain_spec(buf@, max_len) == (Drained {
                        messages: message_views(messages@) + tail.messages,
                        rest: tail.rest,
                        error: tail.error,
                    })
                }),
                done ==> drain_spec(buf@, max_len) == (Drained {
                    messages: message_views(messages@),
                    rest: buf@.skip(consumed as int),
                    error,
                }),
            decreases buf@.len() - consumed + if done { 0int } else { 1int },
        {
            let tail = slice_subrange(buf, consumed, buf.len());
            assert(tail@ =~= buf@.skip(consumed as int));
            let ghost before = message_views(messages@);
            match scan(tail, max_len) {
                FrameScan::Incomplete => {
                    done = true;
                    assert(before + Seq::<MessageView>::empty() =~= before);
                },
                FrameScan::Oversized => {
                    error = Some(DecodeError::TooLarge);
                    done = true;
                    assert(before + Seq::<MessageView>::empty() =~= before);
                },
                FrameScan::Ready { len } => {
                    match decode_payload(payload_of(tail, len)) {
                        Err(e) => {
                            error = Some(e);
                            done = true;
                            assert(before + Seq::<MessageView>::empty() =~= before);
                        },
                        Ok(m) => {
                            proof {
                                let next = drain_spec(tail@.skip(4 + len), max_len);
                                assert(tail@.skip(4 + len) =~= buf@.skip(consumed + 4 + len));
                                assert(message_views(messages@.push(m)) =~= before.push(m@));
                                assert(before + (seq![m@] + next.messages) =~= before.push(m@)
                                    + next.messages);
                            }
                            messages.push(m);
                            consumed = consumed + PREFIX_LEN + len as usize;
                        },
                    }
                },
            }
        }
        Decoded { messages, consumed, error }
    }

    /// Reads `bytes` as exactly one frame.
    pub fn decode(&self, bytes: &[u8]) -> (r: Result<Message, DecodeError>)
        ensures
            match r {
                Ok(m) => decode_spec(bytes@, self.max_payload_len) == Ok::<
                    MessageView,
                    DecodeError,
                >(m@),
                Err(e) => decode_spec(bytes@, self.max_payload_len) == Err::<
                    MessageView,
                    DecodeError,
                >(e),
            },
    {
        match scan(bytes, self.max_payload_len) {
            FrameScan::Incomplete => Err(DecodeError::Truncated),
            FrameScan::Oversized => Err(DecodeError::TooLarge),
            FrameScan::Ready { len } => {
                if bytes.len() - PREFIX_LEN > len as usize {
                    Err(DecodeError::TrailingBytes)
                } else {
                    decode_payload(payload_of(bytes, len))
                }
            },
        }
    }
}

impl Default for Codec {
    fn default() -> (r: Self)
        ensures
            r.max_payload_len == DEFAULT_MAX_PAYLOAD_LEN,
    {
        Codec { max_payload_len: DEFAULT_MAX_PAYLOAD_LEN }
    }
}

/// A frame that `encode` hands out decodes to the message it was made from:
/// for every message and every maximum on which encoding succeeds. And
/// encoding succeeds only for a message whose instant is well formed and
/// whose payload fits.
pub proof fn lemma_decode_inverts_encode(m: MessageView, max_len: u32)
    ensures
        encode_spec(m, max_len) matches Ok(bytes) ==> decode_spec(bytes, max_len) == Ok::<
            MessageView,
            DecodeError,
        >(m),
        encode_spec(m, max_len) matches Ok(bytes) ==> m.date.wf() && bytes.len() <= 4 + max_len,
{
    if let Ok(bytes) = encode_spec(m, max_len) {
        let payload = payload_of_message(m)->0;
        lemma_scan_of_frame(payload, Seq::<u8>::empty(), max_len);
        assert(frame_of(payload) + Seq::<u8>::empty() =~= frame_of(payload));
    }
}

} // verus!
