//! The connection handler: what one accepted socket's reader decides.
//!
//! The handler performs no input or output. Its owner reads the socket and
//! hands each outcome to `on_read`; the handler keeps the bytes that are not
//! yet a whole frame and says which events go to the hub. It never touches the
//! registry.

use crate::address::PeerAddr;
use crate::codec::{drain_spec, Codec, Decoded};
use crate::event::{event_views, Connection, EventView, ServerEvent};
use crate::message::{message_views, Message, MessageView};
use vstd::prelude::*;

verus! {

/// Where a handler stands in its life.
#[derive(Clone, Copy, Debug, PartialEq, Eq, Structural)]
pub enum HandlerState {
    /// The connection has not yet been made known to the hub.
    Announcing,
    /// The socket is being read.
    Reading,
    /// The handler is done: it reads nothing and emits nothing any more.
    Closed,
}

/// What one read of the socket gave.
pub enum ReadOutcome {
    /// The bytes that were read. None at all means that the peer has closed
    /// the connection.
    Data(Vec<u8>),
    /// Nothing is there to read yet: the read is to be tried again.
    WouldBlock,
    /// The read failed for another reason.
    Failed,
}

/// What a read makes of a handler.
pub struct ReadStep {
    /// The state after the read.
    pub state: HandlerState,
    /// The bytes kept for the next read.
    pub pending: Seq<u8>,
    /// The messages that the read completed, in their order.
    pub messages: Seq<MessageView>,
    /// Whether the read ends the connection.
    pub disconnected: bool,
}

/// What a handler in `state`, holding `pending`, makes of `outcome`, for a
/// payload maximum of `max_len`. Outside `Reading` a read changes nothing and
/// emits nothing.
pub open spec fn read_step(
    state: HandlerState,
    pending: Seq<u8>,
    outcome: ReadOutcome,
    max_len: u32,
) -> ReadStep {
    if state != HandlerState::Reading {
        ReadStep { state, pending, messages: Seq::empty(), disconnected: false }
    } else {
        match outcome {
            ReadOutcome::WouldBlock => ReadStep {
                state,
                pending,
                messages: Seq::empty(),
                disconnected: false,
            },
            ReadOutcome::Failed => ReadStep {
                state: HandlerState::Closed,
                pending: Seq::empty(),
                messages: Seq::empty(),
                disconnected: true,
            },
            ReadOutcome::Data(bytes) => if bytes@.len() == 0 {
                ReadStep {
                    state: HandlerState::Closed,
                    pending: Seq::empty(),
                    messages: Seq::empty(),
                    disconnected: true,
                }
            } else {
                let drained = drain_spec(pending + bytes@, max_len);
                if drained.error is Some {
                    ReadStep {
                        state: HandlerState::Closed,
                        pending: Seq::empty(),
                        messages: drained.messages,
                        disconnected: true,
                    }
                } else {
                    ReadStep {
                        state: HandlerState::Reading,
                        pending: drained.rest,
                        messages: drained.messages,
                        disconnected: false,
                    }
                }
            },
        }
    }
}

/// The events that a read emits for the connection at `addr`: one `Inbound`
/// for each message, in order, and after them one `Disconnected` where the
/// read ends the connection.
pub open spec fn emitted<H>(addr: PeerAddr, messages: Seq<MessageView>, disconnected: bool) -> Seq<
    EventView<H>,
> {
    let inbound = messages.map_values(|m: MessageView| EventView::<H>::Inbound(addr, m));
    if disconnected {
        inbound.push(EventView::<H>::Disconnected(addr))
    } else {
        inbound
    }
}

/// The reader of one accepted socket.
pub struct ConnectionHandler {
    addr: PeerAddr,
    codec: Codec,
    state: HandlerState,
    pending: Vec<u8>,
}

impl ConnectionHandler {
    /// The address of the connection.
    pub closed spec fn addr_spec(&self) -> PeerAddr {
        self.addr
    }

    /// The codec that the handler reads frames with.
    pub closed spec fn codec_spec(&self) -> Codec {
        self.codec
    }

    /// Where the handler stands.
    pub closed spec fn state_spec(&self) -> HandlerState {
        self.state
    }

    /// The bytes received that are not yet a whole frame.
    pub closed spec fn pending_spec(&self) -> Seq<u8> {
        self.pending@
    }

    /// A handler for the connection at `addr`, about to announce it.
    pub fn new(addr: PeerAddr, codec: Codec) -> (r: Self)
        ensures
            r.addr_spec() == addr,
            r.codec_spec() == codec,
            r.state_spec() == HandlerState::Announcing,
            r.pending_spec() == Seq::<u8>::empty(),
    {
        ConnectionHandler { addr, codec, state: HandlerState::Announcing, pending: Vec::new() }
    }

    /// The address of the connection.
    #[verifier::when_used_as_spec(addr_spec)]
    pub fn addr(&self) -> (r: PeerAddr)
        ensures
            r == self.addr_spec(),
    {
        self.addr
    }

    /// Where the handler stands.
    #[verifier::when_used_as_spec(state_spec)]
    pub fn state(&self) -> (r: HandlerState)
        ensures
            r == self.state_spec(),
    {
        self.state
    }

    /// Whether the handler is done.
    pub fn is_closed(&self) -> (r: bool)
        ensures
            r == (self.state_spec() == HandlerState::Closed),
    {
        self.state == HandlerState::Closed
    }

    /// The event that makes the connection known to the hub, around the handle
    /// through which the hub will write to it.
    pub fn announcement<H>(&self, handle: H) -> (r: ServerEvent<H>)
        ensures
            r == ServerEvent::Connected(Connection { addr: self.addr_spec(), handle }),
    {
        ServerEvent::Connected(Connection { addr: self.addr, handle })
    }

    /// Takes note of whether the announcement reached the hub: the handler
    /// goes on to read where it did, and is done where it did not. Once past
    /// `Announcing` this changes nothing.
    pub fn announced(&mut self, sent: bool)
        ensures
            final(self).addr_spec() == old(self).addr_spec(),
            final(self).codec_spec() == old(self).codec_spec(),
            final(self).pending_spec() == old(self).pending_spec(),
            final(self).state_spec() == if old(self).state_spec() != HandlerState::Announcing {
                old(self).state_spec()
            } else if sent {
                HandlerState::Reading
            } else {
                HandlerState::Closed
            },
    {
        if self.state == HandlerState::Announcing {
            if sent {
                self.state = HandlerState::Reading;
            } else {
                self.state = HandlerState::Closed;
            }
        }
    }

    /// Takes note that an event could not be handed to the hub: the handler is done.
    pub fn send_failed(&mut self)
        ensures
            final(self).addr_spec() == old(self).addr_spec(),
            final(self).codec_spec() == old(self).codec_spec(),
            final(self).state_spec() == HandlerState::Closed,
            final(self).pending_spec() == Seq::<u8>::empty(),
    {
        self.state = HandlerState::Closed;
        self.pending = Vec::new();
    }

    /// Takes the outcome of one read of the socket and gives the events to
    /// hand to the hub, in order.
    pub fn on_read<H>(&mut self, outcome: ReadOutcome) -> (events: Vec<ServerEvent<H>>)
        ensures
            final(self).addr_spec() == old(self).addr_spec(),
            final(self).codec_spec() == old(self).codec_spec(),
            ({
                let step = read_step(
                    old(self).state_spec(),
                    old(self).pending_spec(),
                    outcome,
                    old(self).codec_spec().max_payload_len,
                );
                &&& final(self).state_spec() == step.state
                &&& final(self).pending_spec() == step.pending
                &&& event_views(events@) == emitted::<H>(
                    old(self).addr_spec(),
                    step.messages,
                    step.disconnected,
                )
            }),
    {
        let mut events: Vec<ServerEvent<H>> = Vec::new();
        assert(event_views(events@) =~= emitted::<H>(self.addr, Seq::empty(), false));
        if self.state != HandlerState::Reading {
            return events;
        }
        match outcome {
            ReadOutcome::WouldBlock => {},
            ReadOutcome::Failed => {
                self.close(&mut events);
            },
            ReadOutcome::Data(bytes) => {
                if bytes.len() == 0 {
                    self.close(&mut events);
                } else {
                    self.pending.extend_from_slice(bytes.as_slice());
                    assert(self.pending@ =~= old(self).pending@ + bytes@);
                    let Decoded { messages, consumed, error } = self.codec.drain(
                        self.pending.as_slice(),
                    );
                    self.emit_inbound(messages, &mut events);
                    if error.is_some() {
                        self.close(&mut events);
                    } else {
                        let rest = self.pending.split_off(consumed);
                        self.pending = rest;
                        assert(self.pending@ =~= (old(self).pending@ + bytes@).skip(
                            consumed as int,
                        ));
                    }
                }
            },
        }
        events
    }

    /// Ends the connection: one `Disconnected` goes out, and nothing is kept.
    fn close<H>(&mut self, events: &mut Vec<ServerEvent<H>>)
        ensures
            final(self).addr == old(self).addr,
            final(self).codec == old(self).codec,
            final(self).state == HandlerState::Closed,
            final(self).pending@ == Seq::<u8>::empty(),
            final(events)@ == old(events)@.push(ServerEvent::Disconnected(old(self).addr)),
            forall|messages: Seq<MessageView>|
                event_views(old(events)@) == emitted::<H>(old(self).addr, messages, false)
                    ==> event_views(final(events)@) == #[trigger] emitted::<H>(
                    old(self).addr,
                    messages,
                    true,
                ),
    {
        events.push(ServerEvent::Disconnected(self.addr));
        self.state = HandlerState::Closed;
        self.pending = Vec::new();
        assert(event_views(events@) =~= event_views(old(events)@).push(
            EventView::Disconnected(self.addr),
        ));
    }

    /// One `Inbound` goes out for each message, in order.
    fn emit_inbound<H>(&self, messages: Vec<Message>, events: &mut Vec<ServerEvent<H>>)
        requires
            old(events)@.len() == 0,
        ensures
            event_views(final(events)@) == emitted::<H>(
                self.addr,
                message_views(messages@),
                false,
            ),
    {
        let ghost all = messages@;
        for m in it: messages
            invariant
                it.seq() == all,
                events@.len() == it.index(),
                forall|i: int|
                    0 <= i < events@.len() ==> (#[trigger] events@[i])@ == EventView::<
                        H,
                    >::Inbound(self.addr, all[i]@),
        {
            events.push(ServerEvent::Inbound(self.addr, m));
        }
        assert(event_views(events@) =~= emitted::<H>(self.addr, message_views(all), false));
    }
}

} // verus!
