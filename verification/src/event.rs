//! What a connection handler tells the hub.

use crate::address::PeerAddr;
use crate::message::{Message, MessageView};
use vstd::prelude::*;

verus! {

/// One client's endpoint: the address that identifies it, and the handle
/// through which the hub's frames are written to it. The library never looks
/// inside the handle.
pub struct Connection<H> {
    pub addr: PeerAddr,
    pub handle: H,
}

impl<H> Connection<H> {
    pub fn new(addr: PeerAddr, handle: H) -> (r: Self)
        ensures
            r.addr == addr,
            r.handle == handle,
    {
        Connection { addr, handle }
    }
}

/// An event on the channel from the handlers to the hub.
pub enum ServerEvent<H> {
    /// A client has connected.
    Connected(Connection<H>),
    /// The client at this address is gone.
    Disconnected(PeerAddr),
    /// The client at this address has sent a message.
    Inbound(PeerAddr, Message),
}

/// What a `ServerEvent` holds, as mathematical values.
pub enum EventView<H> {
    Connected(Connection<H>),
    Disconnected(PeerAddr),
    Inbound(PeerAddr, MessageView),
}

impl<H> View for ServerEvent<H> {
    type V = EventView<H>;

    open spec fn view(&self) -> EventView<H> {
        match *self {
            ServerEvent::Connected(conn) => EventView::Connected(conn),
            ServerEvent::Disconnected(addr) => EventView::Disconnected(addr),
            ServerEvent::Inbound(addr, msg) => EventView::Inbound(addr, msg@),
        }
    }
}

/// The views of a sequence of events, in order.
pub open spec fn event_views<H>(events: Seq<ServerEvent<H>>) -> Seq<EventView<H>> {
    events.map_values(|e: ServerEvent<H>| e@)
}

} // verus!
