//! The receiving side of the terminal client: what its reader makes of each
//! read of the socket.
//!
//! Like a connection handler, the inbox performs no input or output and cuts
//! the byte stream into frames. Unlike it, it passes over a frame whose
//! payload does not decode and goes on with the next one. Only a frame that
//! declares more than the maximum stops it, since behind such a prefix no
//! frame boundary can be found again.

use crate::codec::{decode_payload, message_of_payload, Codec};
use crate::frame::{payload_of, scan, scan_of, FrameScan, PREFIX_LEN};
use crate::handler::ReadOutcome;
use crate::message::{message_views, Message, MessageView};
use vstd::prelude::*;
use vstd::slice::slice_subrange;

verus! {

/// What the front of a byte stream yields to a reader that passes over
/// payloads it cannot decode.
pub struct Sifted {
    /// The messages of the frames that decoded, in their order.
    pub messages: Seq<MessageView>,
    /// The bytes behind the last whole frame.
    pub rest: Seq<u8>,
    /// Whether `rest` begins with a prefix that declares more than the maximum.
    pub oversized: bool,
}

/// Cuts `buf` into frames from the front and keeps the messages of those that
/// decode, until the bytes that are left are no whole frame or declare too much.
pub open spec fn sift_spec(buf: Seq<u8>, max_len: u32) -> Sifted
    decreases buf.len(),
{
    match scan_of(buf, max_len) {
        FrameScan::Incomplete => Sifted { messages: Seq::empty(), rest: buf, oversized: false },
        FrameScan::Oversized => Sifted { messages: Seq::empty(), rest: buf, oversized: true },
        FrameScan::Ready { len } => {
            let tail = sift_spec(buf.skip(4 + len), max_len);
            match message_of_payload(buf.subrange(4, 4 + len)) {
                Ok(m) => Sifted { messages: seq![m] + tail.messages, ..tail },
                Err(_) => tail,
            }
        },
    }
}

/// What the reader does after a read.
#[derive(Clone, Copy, Debug, PartialEq, Eq, Structural)]
pub enum Next {
    /// Read again at once.
    Read,
    /// Nothing was there: wait a moment, then read again.
    Wait,
    /// Stop reading: the connection is over.
    Stop,
}

/// What a read makes of an inbox.
pub struct InboxStep {
    /// The bytes kept for the next read.
    pub pending: Seq<u8>,
    /// The messages that the read completed, in their order.
    pub messages: Seq<MessageView>,
    /// What the reader does next.
    pub next: Next,
}

/// What an inbox that holds `pending` makes of `outcome`, for a payload
/// maximum of `max_len`.
pub open spec fn inbox_step(pending: Seq<u8>, outcome: ReadOutcome, max_len: u32) -> InboxStep {
    match outcome {
        ReadOutcome::WouldBlock => InboxStep { pending, messages: Seq::empty(), next: Next::Wait },
        ReadOutcome::Failed => InboxStep { pending, messages: Seq::empty(), next: Next::Stop },
        ReadOutcome::Data(bytes) => if bytes@.len() == 0 {
            InboxStep { pending, messages: Seq::empty(), next: Next::Stop }
        } else {
            let sifted = sift_spec(pending + bytes@, max_len);
            InboxStep {
                pending: sifted.rest,
                messages: sifted.messages,
                next: if sifted.oversized {
                    Next::Stop
                } else {
                    Next::Read
                },
            }
        },
    }
}

/// The reader of the client's socket.
pub struct Inbox {
    codec: Codec,
    pending: Vec<u8>,
}

impl Inbox {
    /// The codec that the inbox reads frames with.
    pub closed spec fn codec_spec(&self) -> Codec {
        self.codec
    }

    /// The bytes received that are not yet a whole frame.
    pub closed spec fn pending_spec(&self) -> Seq<u8> {
        self.pending@
    }

    /// An inbox that holds nothing.
    pub fn new(codec: Codec) -> (r: Self)
        ensures
            r.codec_spec() == codec,
            r.pending_spec() == Seq::<u8>::empty(),
    {
        Inbox { codec, pending: Vec::new() }
    }

    /// Takes the outcome of one read of the socket and gives the messages it
    /// completed, in order, and what to do next.
    pub fn on_read(&mut self, outcome: ReadOutcome) -> (r: (Vec<Message>, Next))
        ensures
            final(self).codec_spec() == old(self).codec_spec(),
            ({
                let step = inbox_step(
                    old(self).pending_spec(),
                    outcome,
                    old(self).codec_spec().max_payload_len,
                );
                &&& final(self).pending_spec() == step.pending
                &&& message_views(r.0@) == step.messages
                &&& r.1 == step.next
            }),
    {
        let mut messages: Vec<Message> = Vec::new();
        assert(message_views(messages@) =~= Seq::<MessageView>::empty());
        match outcome {
            ReadOutcome::WouldBlock => (messages, Next::Wait),
            ReadOutcome::Failed => (messages, Next::Stop),
            ReadOutcome::Data(bytes) => {
                if bytes.len() == 0 {
                    return (messages, Next::Stop);
                }
                self.pending.extend_from_slice(bytes.as_slice());
                assert(self.pending@ =~= old(self).pending@ + bytes@);
                let (consumed, oversized) = sift(
                    self.pending.as_slice(),
                    self.codec.max_payload_len,
                    &mut messages,
                );
                let rest = self.pending.split_off(consumed);
                self.pending = rest;
                assert(self.pending@ =~= (old(self).pending@ + bytes@).skip(consumed as int));
                if oversized {
                    (messages, Next::Stop)
                } else {
                    (messages, Next::Read)
                }
            },
        }
    }
}

/// Reads every whole frame at the front of `buf`, appends the messages of
/// those that decode to `messages`, and says how many bytes the frames took
/// and whether what follows them declares too much.
fn sift(buf: &[u8], max_len: u32, messages: &mut Vec<Message>) -> (r: (usize, bool))
    requires
        old(messages)@.len() == 0,
    ensures
        r.0 <= buf@.len(),
        message_views(final(messages)@) == sift_spec(buf@, max_len).messages,
        buf@.skip(r.0 as int) == sift_spec(buf@, max_len).rest,
        r.1 == sift_spec(buf@, max_len).oversized,
{
    let mut consumed: usize = 0;
    let mut oversized = false;
    let mut done = false;
    assert(buf@.skip(0) =~= buf@);
    assert(message_views(messages@) =~= Seq::<MessageView>::empty());
    while !done
        invariant
            consumed <= buf@.len(),
            !done ==> !oversized,
            !done ==> ({
                let tail = sift_spec(buf@.skip(consumed as int), max_len);
                sift_spec(buf@, max_len) == (Sifted {
                    messages: message_views(messages@) + tail.messages,
                    ..tail
                })
            }),
            done ==> sift_spec(buf@, max_len) == (Sifted {
                messages: message_views(messages@),
                rest: buf@.skip(consumed as int),
                oversized,
            }),
        decreases buf@.len() - consumed + if done { 0int } else { 1int },
    {
        let tail = slice_subrange(buf, consumed, buf.len());
        assert(tail@ =~= buf@.skip(consumed as int));
        let ghost before = message_views(messages@);
        match scan(tail, max_len) {
            FrameScan::Incomplete => {
                done = true;
                assert(before + Seq::<MessageView>::empty() =~= before);
            },
            FrameScan::Oversized => {
                oversized = true;
                done = true;
                assert(before + Seq::<MessageView>::empty() =~= before);
            },
            FrameScan::Ready { len } => {
                proof {
                    assert(tail@.skip(4 + len) =~= buf@.skip(consumed + 4 + len));
                }
                match decode_payload(payload_of(tail, len)) {
                    Err(_) => {},
                    Ok(m) => {
                        proof {
                            let next = sift_spec(tail@.skip(4 + len), max_len);
                            assert(message_views(messages@.push(m)) =~= before.push(m@));
                            assert(before + (seq![m@] + next.messages) =~= before.push(m@)
                                + next.messages);
                        }
                        messages.push(m);
                    },
                }
                consumed = consumed + PREFIX_LEN + len as usize;
            },
        }
    }
    (consumed, oversized)
}

} // verus!
