//! The hub: the one owner of the registry, and the source of every broadcast.
//!
//! The hub takes the events of all handlers one at a time. It changes the
//! registry on a connect or a disconnect, and on a message it decides who is
//! written what. The writes themselves are its owner's work: a `Broadcast`
//! names one recipient after the other and is told how each write went, and
//! `Hub::settle` then takes out of the registry those whose write failed.

use crate::address::PeerAddr;
use crate::codec::{encode_spec, Codec};
use crate::event::{Connection, EventView, ServerEvent};
use crate::registry::{distinct, others, put, without, ClientRegistry};
use vstd::prelude::*;

verus! {

/// The registry after one event: a connect registers, a disconnect takes out,
/// a message changes nothing.
pub open spec fn apply<H>(entries: Seq<Connection<H>>, event: EventView<H>) -> Seq<Connection<H>> {
    match event {
        EventView::Connected(conn) => put(entries, conn),
        EventView::Disconnected(addr) => without(entries, addr),
        EventView::Inbound(_, _) => entries,
    }
}

/// The registry after each of `addrs` has been taken out, as by one
/// disconnect after the other.
pub open spec fn without_all<H>(entries: Seq<Connection<H>>, addrs: Seq<PeerAddr>) -> Seq<
    Connection<H>,
>
    decreases addrs.len(),
{
    if addrs.len() == 0 {
        entries
    } else {
        without(without_all(entries, addrs.drop_last()), addrs.last())
    }
}

/// What a `Broadcast` holds, as mathematical values.
pub struct BroadcastView {
    /// The frame that every recipient is written.
    pub frame: Seq<u8>,
    /// Who is written the frame, in this order.
    pub recipients: Seq<PeerAddr>,
    /// How the writes made so far went, in the order of the recipients:
    /// `true` for a write that succeeded.
    pub outcomes: Seq<bool>,
}

impl BroadcastView {
    /// The recipient of the next write; `None` once every recipient has had one.
    pub open spec fn next(self) -> Option<PeerAddr> {
        if self.outcomes.len() < self.recipients.len() {
            Some(self.recipients[self.outcomes.len() as int])
        } else {
            None
        }
    }

    /// The broadcast after the write to `self.next()` went as `delivered` says.
    pub open spec fn record(self, delivered: bool) -> BroadcastView {
        if self.outcomes.len() < self.recipients.len() {
            BroadcastView { outcomes: self.outcomes.push(delivered), ..self }
        } else {
            self
        }
    }

    /// The broadcast after one write for each of `results`, in order.
    pub open spec fn play(self, results: Seq<bool>) -> BroadcastView
        decreases results.len(),
    {
        if results.len() == 0 {
            self
        } else {
            self.play(results.drop_last()).record(results.last())
        }
    }

    /// The recipients among the first `upto` whose write went as `wanted` says, in order.
    pub open spec fn with_outcome(self, wanted: bool, upto: nat) -> Seq<PeerAddr>
        decreases upto,
    {
        if upto == 0 {
            Seq::empty()
        } else {
            let before = self.with_outcome(wanted, (upto - 1) as nat);
            if upto <= self.outcomes.len() && upto <= self.recipients.len() && self.outcomes[upto
                - 1] == wanted {
                before.push(self.recipients[upto - 1])
            } else {
                before
            }
        }
    }

    /// The recipients whose write succeeded, in order.
    pub open spec fn delivered(self) -> Seq<PeerAddr> {
        self.with_outcome(true, self.outcomes.len())
    }

    /// The recipients whose write failed, in order.
    pub open spec fn failed(self) -> Seq<PeerAddr> {
        self.with_outcome(false, self.outcomes.len())
    }
}

/// The broadcast that an event starts in a hub with these entries: a message
/// that encodes goes, as one frame, to every registered address but the
/// sender's. Nothing else starts one.
pub open spec fn dispatch<H>(entries: Seq<Connection<H>>, event: EventView<H>, max_len: u32)
    -> Option<BroadcastView> {
    match event {
        EventView::Inbound(sender, message) => match encode_spec(message, max_len) {
            Ok(frame) => Some(
                BroadcastView {
                    frame,
                    recipients: others(entries, sender),
                    outcomes: Seq::empty(),
                },
            ),
            Err(_) => None,
        },
        _ => None,
    }
}

/// One message on its way to every recipient.
pub struct Broadcast {
    frame: Vec<u8>,
    recipients: Vec<PeerAddr>,
    outcomes: Vec<bool>,
}

impl View for Broadcast {
    type V = BroadcastView;

    closed spec fn view(&self) -> BroadcastView {
        BroadcastView {
            frame: self.frame@,
            recipients: self.recipients@,
            outcomes: self.outcomes@,
        }
    }
}

impl Broadcast {
    /// The frame to write.
    pub fn frame(&self) -> (r: &[u8])
        ensures
            r@ == self@.frame,
    {
        self.frame.as_slice()
    }

    /// Who is written the frame, in this order.
    pub fn recipients(&self) -> (r: &[PeerAddr])
        ensures
            r@ == self@.recipients,
    {
        self.recipients.as_slice()
    }

    /// The recipient of the next write; `None` once every recipient has had one.
    pub fn next_recipient(&self) -> (r: Option<PeerAddr>)
        ensures
            r == self@.next(),
    {
        if self.outcomes.len() < self.recipients.len() {
            Some(self.recipients[self.outcomes.len()])
        } else {
            None
        }
    }

    /// Takes note of how the write to `next_recipient` went, and moves on to
    /// the recipient after it, whether or not the write succeeded.
    pub fn record(&mut self, delivered: bool)
        ensures
            final(self)@ == old(self)@.record(delivered),
    {
        if self.outcomes.len() < self.recipients.len() {
            self.outcomes.push(delivered);
        }
    }

    /// The recipients whose write failed, in order.
    pub fn failed(&self) -> (r: Vec<PeerAddr>)
        ensures
            r@ == self@.failed(),
    {
        let mut out: Vec<PeerAddr> = Vec::new();
        let mut i: usize = 0;
        while i < self.outcomes.len()
            invariant
                i <= self.outcomes@.len(),
                out@ == self@.with_outcome(false, i as nat),
            decreases self.outcomes@.len() - i,
        {
            if i < self.recipients.len() && !self.outcomes[i] {
                out.push(self.recipients[i]);
            }
            i += 1;
        }
        out
    }
}

/// The hub.
pub struct Hub<H> {
    registry: ClientRegistry<H>,
    codec: Codec,
}

impl<H> View for Hub<H> {
    type V = Seq<Connection<H>>;

    /// The registered connections, in the order of the registry.
    closed spec fn view(&self) -> Seq<Connection<H>> {
        self.registry@
    }
}

impl<H> Hub<H> {
    /// The codec with which the hub writes its frames.
    pub closed spec fn codec_spec(&self) -> Codec {
        self.codec
    }

    /// A hub with nothing registered.
    pub fn new(codec: Codec) -> (r: Self)
        ensures
            r@ == Seq::<Connection<H>>::empty(),
            r.codec_spec() == codec,
    {
        Hub { registry: ClientRegistry::new(), codec }
    }

    /// The registry, to look up the handle of a recipient.
    pub fn registry(&self) -> (r: &ClientRegistry<H>)
        ensures
            r@ == self@,
    {
        &self.registry
    }

    /// Takes one event. The registry changes as `apply` says, and where the
    /// event is a message that encodes, the broadcast of its frame to every
    /// registered address but the sender's is handed back, no write made yet.
    pub fn handle(&mut self, event: ServerEvent<H>) -> (r: Option<Broadcast>)
        ensures
            distinct(old(self)@),
            final(self).codec_spec() == old(self).codec_spec(),
            final(self)@ == apply(old(self)@, event@),
            match r {
                Some(broadcast) => dispatch(
                    old(self)@,
                    event@,
                    old(self).codec_spec().max_payload_len,
                ) == Some(broadcast@),
                None => dispatch(old(self)@, event@, old(self).codec_spec().max_payload_len)
                    is None,
            },
    {
        match event {
            ServerEvent::Connected(conn) => {
                let _ = self.registry.insert(conn);
                None
            },
            ServerEvent::Disconnected(addr) => {
                let _ = self.registry.remove(addr);
                None
            },
            ServerEvent::Inbound(sender, message) => {
                let recipients = self.registry.others(sender);
                match self.codec.encode(&message) {
                    Ok(frame) => Some(Broadcast { frame, recipients, outcomes: Vec::new() }),
                    Err(_) => None,
                }
            },
        }
    }

    /// Closes a broadcast: every recipient whose write failed leaves the
    /// registry, as if it had disconnected, and nobody else does.
    pub fn settle(&mut self, broadcast: Broadcast)
        ensures
            final(self).codec_spec() == old(self).codec_spec(),
            final(self)@ == without_all(old(self)@, broadcast@.failed()),
    {
        let failed = broadcast.failed();
        let mut i: usize = 0;
        while i < failed.len()
            invariant
                i <= failed@.len(),
                self.codec == old(self).codec,
                self.registry@ == without_all(old(self).registry@, failed@.take(i as int)),
            decreases failed@.len() - i,
        {
            assert(failed@.take(i + 1).drop_last() =~= failed@.take(i as int));
            let _ = self.registry.remove(failed[i]);
            i += 1;
        }
        assert(failed@.take(i as int) =~= failed@);
    }
}

} // verus!
