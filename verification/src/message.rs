//! The chat message and the instant it carries.

use vstd::prelude::*;

verus! {

/// Nanoseconds in one second: the exclusive bound of `Timestamp::nanos_since_epoch`.
pub const NANOS_PER_SEC: u32 = 1_000_000_000;

/// An instant, as whole seconds and nanoseconds since the Unix epoch.
#[derive(Clone, Copy, Debug, PartialEq, Eq, Structural)]
pub struct Timestamp {
    pub secs_since_epoch: u64,
    pub nanos_since_epoch: u32,
}

impl Timestamp {
    /// The nanosecond part is less than one second. Only such an instant
    /// goes over the wire.
    pub open spec fn wf(&self) -> bool {
        self.nanos_since_epoch < NANOS_PER_SEC
    }

    /// Builds the instant, or `None` where `nanos_since_epoch` is a second or more.
    pub fn new(secs_since_epoch: u64, nanos_since_epoch: u32) -> (r: Option<Timestamp>)
        ensures
            r == if nanos_since_epoch < NANOS_PER_SEC {
                Some(Timestamp { secs_since_epoch, nanos_since_epoch })
            } else {
                None::<Timestamp>
            },
    {
        if nanos_since_epoch < NANOS_PER_SEC {
            Some(Timestamp { secs_since_epoch, nanos_since_epoch })
        } else {
            None
        }
    }
}

/// What a `Message` holds, as mathematical values.
pub struct MessageView {
    pub body: Seq<char>,
    pub date: Timestamp,
    pub author: Seq<char>,
}

/// One chat message. Nothing in the library changes a message once it is built.
#[derive(Debug)]
pub struct Message {
    pub body: String,
    pub date: Timestamp,
    pub author: String,
}

impl View for Message {
    type V = MessageView;

    open spec fn view(&self) -> MessageView {
        MessageView { body: self.body@, date: self.date, author: self.author@ }
    }
}

/// The views of a sequence of messages, in order.
pub open spec fn message_views(messages: Seq<Message>) -> Seq<MessageView> {
    messages.map_values(|m: Message| m@)
}

impl Message {
    pub fn new(body: String, date: Timestamp, author: String) -> (r: Self)
        ensures
            r.body == body,
            r.date == date,
            r.author == author,
    {
        Self { body, date, author }
    }

    /// Whether two messages hold the same text, instant and author.
    pub fn same(&self, other: &Message) -> (r: bool)
        ensures
            r == (self@ == other@),
    {
        self.body == other.body && self.date == other.date && self.author == other.author
    }
}

impl Clone for Message {
    fn clone(&self) -> (r: Self)
        ensures
            r@ == self@,
    {
        Message { body: self.body.clone(), date: self.date, author: self.author.clone() }
    }
}

} // verus!
