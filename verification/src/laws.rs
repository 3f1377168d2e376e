//! What holds of the hub, the handler and the codec on every input.

use crate::address::PeerAddr;
use crate::codec::{
    decode_spec, drain_spec, encode_spec, message_of_payload, payload_of_message, DecodeError,
    Drained, EncodeError,
};
use crate::event::{Connection, EventView};
use crate::frame::{be32_value, frame_of, lemma_scan_of_frame, scan_of, FrameScan};
use crate::handler::{read_step, HandlerState, ReadOutcome, ReadStep};
use crate::hub::{apply, dispatch, without_all, BroadcastView};
use crate::message::MessageView;
use crate::registry::{
    addresses, distinct, lemma_others, lemma_put, lemma_without, others, registered,
};
use vstd::prelude::*;
use vstd::utf8::valid_utf8;

verus! {

/// The registry after `events`, taken one after the other.
pub open spec fn replay<H>(entries: Seq<Connection<H>>, events: Seq<EventView<H>>) -> Seq<
    Connection<H>,
>
    decreases events.len(),
{
    if events.len() == 0 {
        entries
    } else {
        apply(replay(entries, events.drop_last()), events.last())
    }
}

/// `event` is the connect of the client at `addr`.
pub open spec fn connects<H>(event: EventView<H>, addr: PeerAddr) -> bool {
    event matches EventView::Connected(conn) && conn.addr == addr
}

/// `event` is the disconnect of the client at `addr`.
pub open spec fn disconnects<H>(event: EventView<H>, addr: PeerAddr) -> bool {
    event matches EventView::Disconnected(gone) && gone == addr
}

/// Among `events` the client at `addr` has connected, and has not
/// disconnected since.
pub open spec fn live<H>(events: Seq<EventView<H>>, addr: PeerAddr) -> bool {
    exists|i: int|
        0 <= i < events.len() && #[trigger] connects(events[i], addr) && forall|j: int|
            i < j < events.len() ==> !#[trigger] disconnects(events[j], addr)
}

/// After any sequence of events, starting with nothing registered, the
/// registry holds exactly the addresses that have connected and not
/// disconnected since, each once.
pub proof fn lemma_registry_consistency<H>(events: Seq<EventView<H>>)
    ensures
        distinct(replay(Seq::<Connection<H>>::empty(), events)),
        forall|addr: PeerAddr|
            registered(replay(Seq::<Connection<H>>::empty(), events), addr) <==> live(
                events,
                addr,
            ),
    decreases events.len(),
{
    let start = Seq::<Connection<H>>::empty();
    let now = replay(start, events);
    if events.len() == 0 {
        assert forall|addr: PeerAddr| registered(now, addr) <==> live(events, addr) by {}
    } else {
        let earlier = events.drop_last();
        let last = events.last();
        let before = replay(start, earlier);
        lemma_registry_consistency(earlier);
        assert forall|j: int| 0 <= j < earlier.len() implies earlier[j] == events[j] by {}
        match last {
            EventView::Connected(conn) => {
                lemma_put(before, conn);
            },
            EventView::Disconnected(gone) => {
                lemma_without(before, gone);
            },
            EventView::Inbound(_, _) => {},
        }
        assert forall|addr: PeerAddr| registered(now, addr) <==> live(events, addr) by {
            let was = registered(before, addr);
            assert(was <==> live(earlier, addr));
            // What the last event makes of the earlier answer.
            let is = if connects(last, addr) {
                true
            } else if disconnects(last, addr) {
                false
            } else {
                was
            };
            assert(registered(now, addr) == is) by {
                match last {
                    EventView::Connected(conn) => {
                        assert(addresses(now).contains(addr)
                            == addresses(before).insert(conn.addr).contains(
                            addr,
                        ));
                    },
                    EventView::Disconnected(gone) => {
                        assert(addresses(now).contains(addr)
                            == addresses(before).remove(gone).contains(addr));
                    },
                    EventView::Inbound(_, _) => {},
                }
            }
            let n = events.len() - 1;
            if live(events, addr) {
                let i = choose|i: int|
                    0 <= i < events.len() && #[trigger] connects(events[i], addr) && forall|
                        j: int,
                    |
                        i < j < events.len() ==> !#[trigger] disconnects(events[j], addr);
                if i < n {
                    assert(!disconnects(events[n], addr));
                    assert(connects(earlier[i], addr));
                    assert forall|j: int| i < j < earlier.len() implies !#[trigger] disconnects(
                        earlier[j],
                        addr,
                    ) by {
                        assert(!disconnects(events[j], addr));
                    }
                    assert(live(earlier, addr));
                    assert(is);
                } else {
                    assert(connects(last, addr));
                }
            }
            if is {
                if connects(last, addr) {
                    assert(connects(events[n], addr));
                    assert(live(events, addr));
                } else {
                    let i = choose|i: int|
                        0 <= i < earlier.len() && #[trigger] connects(earlier[i], addr) && forall|
                            j: int,
                        |
                            i < j < earlier.len() ==> !#[trigger] disconnects(earlier[j], addr);
                    assert(connects(events[i], addr));
                    assert forall|j: int| i < j < events.len() implies !#[trigger] disconnects(
                        events[j],
                        addr,
                    ) by {
                        if j < n {
                            assert(!disconnects(earlier[j], addr));
                        }
                    }
                    assert(live(events, addr));
                }
            }
        }
    }
}

/// A disconnect of an address that is not registered changes nothing, so a
/// second disconnect after a first does nothing.
pub proof fn lemma_disconnect_twice<H>(entries: Seq<Connection<H>>, addr: PeerAddr)
    requires
        distinct(entries),
    ensures
        !registered(entries, addr) ==> apply(entries, EventView::Disconnected(addr)) == entries,
        apply(apply(entries, EventView::Disconnected(addr)), EventView::Disconnected(addr))
            == apply(entries, EventView::Disconnected(addr)),
{
    lemma_without(entries, addr);
}

/// Taking addresses out one after the other takes out exactly those, and
/// leaves every other registration as it was.
pub proof fn lemma_without_all<H>(entries: Seq<Connection<H>>, addrs: Seq<PeerAddr>)
    requires
        distinct(entries),
    ensures
        distinct(without_all(entries, addrs)),
        forall|addr: PeerAddr|
            #[trigger] registered(without_all(entries, addrs), addr) <==> registered(
                entries,
                addr,
            ) && !addrs.contains(addr),
    decreases addrs.len(),
{
    let after = without_all(entries, addrs);
    if addrs.len() == 0 {
        assert forall|addr: PeerAddr| #[trigger]
            registered(after, addr) <==> registered(entries, addr) && !addrs.contains(addr) by {}
    } else {
        let earlier = addrs.drop_last();
        let before = without_all(entries, earlier);
        lemma_without_all(entries, earlier);
        lemma_without(before, addrs.last());
        assert forall|addr: PeerAddr| #[trigger]
            registered(after, addr) <==> registered(entries, addr) && !addrs.contains(addr) by {
            assert(registered(before, addr) <==> registered(entries, addr) && !earlier.contains(
                addr,
            ));
            assert(addresses(after).contains(addr)
                == addresses(before).remove(addrs.last()).contains(addr));
            if addrs.contains(addr) {
                let i = choose|i: int| 0 <= i < addrs.len() && addrs[i] == addr;
                if i < earlier.len() {
                    assert(earlier[i] == addr);
                }
            }
            if earlier.contains(addr) {
                let i = choose|i: int| 0 <= i < earlier.len() && earlier[i] == addr;
                assert(addrs[i] == addr);
            }
            if addr == addrs.last() {
                assert(addrs[addrs.len() - 1] == addr);
            }
        }
    }
}

/// A broadcast that is played on keeps its frame and its recipients, and
/// holds the outcomes in the order in which they came.
pub proof fn lemma_play(b: BroadcastView, results: Seq<bool>)
    requires
        b.outcomes.len() + results.len() <= b.recipients.len(),
    ensures
        b.play(results) == (BroadcastView { outcomes: b.outcomes + results, ..b }),
    decreases results.len(),
{
    if results.len() == 0 {
        assert(b.outcomes + results =~= b.outcomes);
    } else {
        lemma_play(b, results.drop_last());
        assert((b.outcomes + results.drop_last()).push(results.last()) =~= b.outcomes + results);
    }
}

/// Who stands among the recipients with a given outcome: those, and only
/// those, whose own write went that way.
pub proof fn lemma_with_outcome(b: BroadcastView, wanted: bool, upto: nat)
    requires
        upto <= b.outcomes.len() <= b.recipients.len(),
    ensures
        forall|k: int|
            0 <= k < upto && b.outcomes[k] == wanted ==> b.with_outcome(wanted, upto).contains(
                #[trigger] b.recipients[k],
            ),
        forall|addr: PeerAddr|
            #[trigger] b.with_outcome(wanted, upto).contains(addr) ==> exists|k: int|
                0 <= k < upto && b.outcomes[k] == wanted && #[trigger] b.recipients[k] == addr,
    decreases upto,
{
    let now = b.with_outcome(wanted, upto);
    if upto > 0 {
        let before = b.with_outcome(wanted, (upto - 1) as nat);
        lemma_with_outcome(b, wanted, (upto - 1) as nat);
        assert forall|k: int| 0 <= k < upto && b.outcomes[k] == wanted implies now.contains(
            #[trigger] b.recipients[k],
        ) by {
            if k < upto - 1 {
                let i = choose|i: int| 0 <= i < before.len() && before[i] == b.recipients[k];
                assert(now[i] == b.recipients[k]);
            } else {
                assert(now[before.len() as int] == b.recipients[k]);
            }
        }
        assert forall|addr: PeerAddr| #[trigger] now.contains(addr) implies exists|k: int|
            0 <= k < upto && b.outcomes[k] == wanted && #[trigger] b.recipients[k] == addr by {
            let i = choose|i: int| 0 <= i < now.len() && now[i] == addr;
            if i < before.len() {
                assert(before[i] == addr);
                assert(before.contains(addr));
            } else {
                assert(b.recipients[upto - 1] == addr);
            }
        }
    }
}

/// A message that encodes starts one broadcast. Its
/// frame is the encoding of the message. Its recipients are the registered
/// addresses other than the sender's, each once: one fewer than the registry
/// holds where the sender is registered, as many where it is not. And played
/// to its end, whatever the outcomes, it has named each recipient for one
/// write, in order, and names no more.
pub proof fn lemma_broadcast_completeness<H>(
    entries: Seq<Connection<H>>,
    sender: PeerAddr,
    message: MessageView,
    max_len: u32,
    results: Seq<bool>,
)
    requires
        distinct(entries),
        encode_spec(message, max_len) is Ok,
        results.len() == others(entries, sender).len(),
    ensures
        dispatch(entries, EventView::Inbound(sender, message), max_len) matches Some(b) && {
            &&& Ok::<Seq<u8>, EncodeError>(b.frame) == encode_spec(message, max_len)
            &&& b.outcomes.len() == 0
            &&& b.recipients.no_duplicates()
            &&& forall|addr: PeerAddr|
                b.recipients.contains(addr) <==> registered(entries, addr) && addr != sender
            &&& b.recipients.len() == if registered(entries, sender) {
                entries.len() - 1
            } else {
                entries.len() as int
            }
            &&& forall|k: int|
                0 <= k < b.recipients.len() ==> b.play(results.take(k)).next() == Some(
                    #[trigger] b.recipients[k],
                )
            &&& b.play(results).next() is None
        },
{
    lemma_others(entries, sender);
    let b = dispatch(entries, EventView::Inbound(sender, message), max_len)->0;
    lemma_play(b, results);
    assert forall|k: int| 0 <= k < b.recipients.len() implies b.play(results.take(k)).next()
        == Some(#[trigger] b.recipients[k]) by {
        lemma_play(b, results.take(k));
    }
}

/// In a broadcast, the write to one recipient is made whatever became of the
/// writes before it, and a recipient whose own write succeeded has the frame,
/// however many of the others failed.
pub proof fn lemma_fault_isolation(b: BroadcastView, results: Seq<bool>, failing: int, other: int)
    requires
        b.outcomes.len() == 0,
        results.len() == b.recipients.len(),
        0 <= failing < results.len(),
        0 <= other < results.len(),
        failing != other,
        !results[failing],
    ensures
        b.play(results.take(other)).next() == Some(b.recipients[other]),
        b.play(results).frame == b.frame,
        results[other] ==> b.play(results).delivered().contains(b.recipients[other]),
        b.play(results).failed().contains(b.recipients[failing]),
{
    lemma_play(b, results.take(other));
    lemma_play(b, results);
    let done = b.play(results);
    assert(done.outcomes =~= results);
    lemma_with_outcome(done, true, done.outcomes.len());
    lemma_with_outcome(done, false, done.outcomes.len());
}

/// Settling a broadcast takes out of the registry the recipients whose write
/// failed, and nobody else: whoever was registered and is not among them
/// stays.
pub proof fn lemma_settle<H>(entries: Seq<Connection<H>>, b: BroadcastView)
    requires
        distinct(entries),
        b.outcomes.len() <= b.recipients.len(),
    ensures
        distinct(without_all(entries, b.failed())),
        forall|addr: PeerAddr|
            #[trigger] registered(without_all(entries, b.failed()), addr) <==> registered(
                entries,
                addr,
            ) && !b.failed().contains(addr),
        forall|k: int|
            0 <= k < b.outcomes.len() && !b.outcomes[k] ==> !registered(
                without_all(entries, b.failed()),
                #[trigger] b.recipients[k],
            ),
{
    lemma_without_all(entries, b.failed());
    lemma_with_outcome(b, false, b.outcomes.len());
}

/// One turn of the hub's loop: the event it took, and how the writes went
/// that the event led to, in the order of the recipients.
pub struct Round<H> {
    pub event: EventView<H>,
    pub results: Seq<bool>,
}

/// One frame that reached one recipient.
pub struct Delivery {
    /// In which round it was written, counted from 0.
    pub round: int,
    /// To whom.
    pub to: PeerAddr,
    /// What was written.
    pub frame: Seq<u8>,
}

/// The registry after one round: after the event, and after the broadcast it
/// started, if any, was played with the round's results and settled.
pub open spec fn after_round<H>(entries: Seq<Connection<H>>, round: Round<H>, max_len: u32) -> Seq<
    Connection<H>,
> {
    match dispatch(entries, round.event, max_len) {
        Some(b) => without_all(apply(entries, round.event), b.play(round.results).failed()),
        None => apply(entries, round.event),
    }
}

/// The registry after `rounds`, one after the other.
pub open spec fn after_rounds<H>(entries: Seq<Connection<H>>, rounds: Seq<Round<H>>, max_len: u32)
    -> Seq<Connection<H>>
    decreases rounds.len(),
{
    if rounds.len() == 0 {
        entries
    } else {
        after_round(after_rounds(entries, rounds.drop_last(), max_len), rounds.last(), max_len)
    }
}

/// The frames that the round numbered `number` delivers from a hub with these
/// entries, in the order in which they are written.
pub open spec fn deliveries_of<H>(
    entries: Seq<Connection<H>>,
    round: Round<H>,
    number: int,
    max_len: u32,
) -> Seq<Delivery> {
    match dispatch(entries, round.event, max_len) {
        Some(b) => b.play(round.results).delivered().map_values(
            |to: PeerAddr| Delivery { round: number, to, frame: b.frame },
        ),
        None => Seq::empty(),
    }
}

/// Every frame delivered in the course of `rounds`, in the order in which
/// they are written.
pub open spec fn deliveries<H>(entries: Seq<Connection<H>>, rounds: Seq<Round<H>>, max_len: u32)
    -> Seq<Delivery>
    decreases rounds.len(),
{
    if rounds.len() == 0 {
        Seq::empty()
    } else {
        deliveries(entries, rounds.drop_last(), max_len) + deliveries_of(
            after_rounds(entries, rounds.drop_last(), max_len),
            rounds.last(),
            rounds.len() - 1,
            max_len,
        )
    }
}

/// Every delivery belongs to one of the rounds, and the deliveries stand in
/// the order of their rounds.
pub proof fn lemma_deliveries_in_order<H>(
    entries: Seq<Connection<H>>,
    rounds: Seq<Round<H>>,
    max_len: u32,
)
    ensures
        forall|p: int|
            0 <= p < deliveries(entries, rounds, max_len).len() ==> 0 <= (#[trigger] deliveries(
                entries,
                rounds,
                max_len,
            )[p]).round < rounds.len(),
        forall|p: int, q: int|
            0 <= p <= q < deliveries(entries, rounds, max_len).len() ==> (#[trigger] deliveries(
                entries,
                rounds,
                max_len,
            )[p]).round <= (#[trigger] deliveries(entries, rounds, max_len)[q]).round,
    decreases rounds.len(),
{
    if rounds.len() > 0 {
        lemma_deliveries_in_order(entries, rounds.drop_last(), max_len);
    }
}

/// Where a message was taken by the hub in an earlier round than another,
/// every recipient that is delivered both is delivered the earlier one first.
/// So two messages of one sender reach every recipient in the order in which
/// they were sent.
pub proof fn lemma_per_sender_order<H>(
    entries: Seq<Connection<H>>,
    rounds: Seq<Round<H>>,
    max_len: u32,
    first: int,
    second: int,
    p: int,
    q: int,
)
    requires
        first < second,
        0 <= p < deliveries(entries, rounds, max_len).len(),
        0 <= q < deliveries(entries, rounds, max_len).len(),
        deliveries(entries, rounds, max_len)[p].round == first,
        deliveries(entries, rounds, max_len)[q].round == second,
        deliveries(entries, rounds, max_len)[p].to == deliveries(entries, rounds, max_len)[q].to,
    ensures
        p < q,
{
    lemma_deliveries_in_order(entries, rounds, max_len);
}

/// What a delivery is: the frame of the message that its round took, written
/// to one of the addresses that were registered when the round began, other
/// than the sender's.
pub proof fn lemma_delivery<H>(
    entries: Seq<Connection<H>>,
    rounds: Seq<Round<H>>,
    max_len: u32,
    p: int,
)
    requires
        distinct(entries),
        0 <= p < deliveries(entries, rounds, max_len).len(),
    ensures
        ({
            let d = deliveries(entries, rounds, max_len)[p];
            let then = after_rounds(entries, rounds.take(d.round), max_len);
            &&& 0 <= d.round < rounds.len()
            &&& rounds[d.round].event matches EventView::Inbound(sender, message)
            &&& Ok::<Seq<u8>, EncodeError>(d.frame) == encode_spec(message, max_len)
            &&& registered(then, d.to)
            &&& d.to != sender
        }),
    decreases rounds.len(),
{
    let log = deliveries(entries, rounds, max_len);
    let earlier = rounds.drop_last();
    let before = deliveries(entries, earlier, max_len);
    let n = rounds.len() - 1;
    assert(rounds.take(n) =~= earlier);
    if p < before.len() {
        lemma_deliveries_in_order(entries, earlier, max_len);
        lemma_delivery(entries, earlier, max_len, p);
        let d = before[p];
        assert(log[p] == d);
        assert(earlier.take(d.round) =~= rounds.take(d.round));
        assert(earlier[d.round] == rounds[d.round]);
    } else {
        let then = after_rounds(entries, earlier, max_len);
        lemma_after_rounds_distinct(entries, earlier, max_len);
        let round = rounds.last();
        let b = dispatch(then, round.event, max_len)->0;
        let sender = round.event->Inbound_0;
        let done = b.play(round.results);
        lemma_others(then, sender);
        lemma_play_bounded(b, round.results);
        lemma_with_outcome(done, true, done.outcomes.len());
        let i = p - before.len();
        let to = done.delivered()[i];
        assert(done.delivered().contains(to));
        assert(b.recipients.contains(to));
    }
}

/// A broadcast that is played on keeps its frame and its recipients, and
/// never holds more outcomes than recipients.
pub proof fn lemma_play_bounded(b: BroadcastView, results: Seq<bool>)
    requires
        b.outcomes.len() <= b.recipients.len(),
    ensures
        b.play(results).frame == b.frame,
        b.play(results).recipients == b.recipients,
        b.play(results).outcomes.len() <= b.recipients.len(),
    decreases results.len(),
{
    if results.len() > 0 {
        lemma_play_bounded(b, results.drop_last());
    }
}

/// No address is registered twice after any rounds.
pub proof fn lemma_after_rounds_distinct<H>(
    entries: Seq<Connection<H>>,
    rounds: Seq<Round<H>>,
    max_len: u32,
)
    requires
        distinct(entries),
    ensures
        distinct(after_rounds(entries, rounds, max_len)),
    decreases rounds.len(),
{
    if rounds.len() > 0 {
        let before = after_rounds(entries, rounds.drop_last(), max_len);
        lemma_after_rounds_distinct(entries, rounds.drop_last(), max_len);
        let round = rounds.last();
        match round.event {
            EventView::Connected(conn) => {
                lemma_put(before, conn);
            },
            EventView::Disconnected(gone) => {
                lemma_without(before, gone);
            },
            EventView::Inbound(_, _) => {},
        }
        match dispatch(before, round.event, max_len) {
            Some(b) => {
                lemma_without_all(apply(before, round.event), b.play(round.results).failed());
            },
            None => {},
        }
    }
}

/// Bytes that arrive behind a buffer change nothing about the frames that
/// the buffer already holds whole: draining in two parts yields what draining
/// at once yields.
pub proof fn lemma_drain_in_parts(a: Seq<u8>, b: Seq<u8>, max_len: u32)
    ensures
        ({
            let first = drain_spec(a, max_len);
            let second = drain_spec(first.rest + b, max_len);
            drain_spec(a + b, max_len) == if first.error is Some {
                Drained { messages: first.messages, rest: first.rest + b, error: first.error }
            } else {
                Drained {
                    messages: first.messages + second.messages,
                    rest: second.rest,
                    error: second.error,
                }
            }
        }),
    decreases a.len(),
{
    let first = drain_spec(a, max_len);
    let second = drain_spec(first.rest + b, max_len);
    let whole = drain_spec(a + b, max_len);
    let nothing = Seq::<MessageView>::empty();
    if a.len() >= 4 {
        assert(be32_value(a + b) == be32_value(a)) by {
            assert((a + b)[0] == a[0]);
            assert((a + b)[1] == a[1]);
            assert((a + b)[2] == a[2]);
            assert((a + b)[3] == a[3]);
        }
    }
    match scan_of(a, max_len) {
        FrameScan::Incomplete => {
            assert(nothing + second.messages =~= second.messages);
        },
        FrameScan::Oversized => {},
        FrameScan::Ready { len } => {
            assert((a + b).subrange(4, 4 + len) =~= a.subrange(4, 4 + len));
            match message_of_payload(a.subrange(4, 4 + len)) {
                Err(_) => {},
                Ok(m) => {
                    let tail = a.skip(4 + len);
                    assert((a + b).skip(4 + len) =~= tail + b);
                    lemma_drain_in_parts(tail, b, max_len);
                    let inner = drain_spec(tail, max_len);
                    assert((seq![m] + inner.messages) + second.messages =~= seq![m] + (
                    inner.messages + second.messages));
                },
            }
        },
    }
}

/// However the bytes of a stream are cut into reads, a handler that is
/// reading emits the same events and ends in the same state. Here for one
/// cut: two reads, of `a` and then of `b`, against one read of both.
pub proof fn lemma_reads_in_parts(
    pending: Seq<u8>,
    a: ReadOutcome,
    b: ReadOutcome,
    both: ReadOutcome,
    max_len: u32,
)
    requires
        a matches ReadOutcome::Data(x) && x@.len() > 0,
        b matches ReadOutcome::Data(y) && y@.len() > 0,
        both matches ReadOutcome::Data(z) && z@ == a->Data_0@ + b->Data_0@,
    ensures
        ({
            let first = read_step(HandlerState::Reading, pending, a, max_len);
            let second = read_step(first.state, first.pending, b, max_len);
            read_step(HandlerState::Reading, pending, both, max_len) == ReadStep {
                state: second.state,
                pending: second.pending,
                messages: first.messages + second.messages,
                disconnected: first.disconnected || second.disconnected,
            }
        }),
{
    let x = a->Data_0@;
    let y = b->Data_0@;
    lemma_drain_in_parts(pending + x, y, max_len);
    assert(pending + (x + y) =~= (pending + x) + y);
    let first = read_step(HandlerState::Reading, pending, a, max_len);
    assert(first.messages + Seq::<MessageView>::empty() =~= first.messages);
}

/// A frame whose prefix declares more than the maximum does not decode, and
/// neither does a frame whose payload is not UTF-8.
pub proof fn lemma_malformed_frame_is_refused(bytes: Seq<u8>, max_len: u32)
    requires
        bytes.len() >= 4,
    ensures
        be32_value(bytes) > max_len ==> decode_spec(bytes, max_len) == Err::<
            MessageView,
            DecodeError,
        >(DecodeError::TooLarge),
        be32_value(bytes) <= max_len && bytes.len() == 4 + be32_value(bytes) && !valid_utf8(
            bytes.skip(4),
        ) ==> decode_spec(bytes, max_len) == Err::<MessageView, DecodeError>(
            DecodeError::InvalidUtf8,
        ),
{
    if be32_value(bytes) <= max_len && bytes.len() == 4 + be32_value(bytes) {
        assert(bytes.subrange(4, 4 + be32_value(bytes)) =~= bytes.skip(4));
    }
}

/// When the bytes that a reading handler holds begin with a frame that
/// declares too much, or with a whole frame whose payload is not UTF-8, the
/// handler emits one disconnect for its own address and is done; and when the
/// hub takes that disconnect, that address leaves the registry, every other
/// registration stays, and no broadcast starts.
pub proof fn lemma_malformed_frame_ends_one_connection<H>(
    entries: Seq<Connection<H>>,
    addr: PeerAddr,
    pending: Seq<u8>,
    read: ReadOutcome,
    max_len: u32,
)
    requires
        distinct(entries),
        read matches ReadOutcome::Data(bytes) && bytes@.len() > 0 && {
            let buf = pending + bytes@;
            buf.len() >= 4 && (be32_value(buf) > max_len || (buf.len() >= 4 + be32_value(buf)
                && !valid_utf8(buf.subrange(4, 4 + be32_value(buf)))))
        },
    ensures
        read_step(HandlerState::Reading, pending, read, max_len) == (ReadStep {
            state: HandlerState::Closed,
            pending: Seq::empty(),
            messages: Seq::empty(),
            disconnected: true,
        }),
        !registered(apply(entries, EventView::Disconnected(addr)), addr),
        forall|other: PeerAddr|
            other != addr ==> (#[trigger] registered(
                apply(entries, EventView::Disconnected(addr)),
                other,
            ) <==> registered(entries, other)),
        dispatch(entries, EventView::Disconnected(addr), max_len) is None,
{
    lemma_without(entries, addr);
    let after = apply(entries, EventView::Disconnected(addr));
    assert forall|other: PeerAddr| other != addr implies (#[trigger] registered(after, other)
        <==> registered(entries, other)) by {
        assert(addresses(after).contains(other) == addresses(
            entries,
        ).remove(addr).contains(other));
    }
}

/// What one side encodes, the other side reads: a handler that is reading
/// and holds nothing, handed a frame that `encode` made, emits that one
/// message, keeps nothing and goes on reading.
pub proof fn lemma_encoded_frame_is_received(m: MessageView, read: ReadOutcome, max_len: u32)
    requires
        encode_spec(m, max_len) matches Ok(frame) && read matches ReadOutcome::Data(bytes)
            && bytes@ == frame,
    ensures
        read_step(HandlerState::Reading, Seq::empty(), read, max_len) == (ReadStep {
            state: HandlerState::Reading,
            pending: Seq::empty(),
            messages: seq![m],
            disconnected: false,
        }),
{
    let frame = encode_spec(m, max_len)->Ok_0;
    let payload = payload_of_message(m)->0;
    let nothing = Seq::<u8>::empty();
    lemma_scan_of_frame(payload, nothing, max_len);
    assert(frame_of(payload) + nothing =~= frame);
    assert(nothing + frame =~= frame);
    let tail = drain_spec(frame.skip(4 + payload.len() as int), max_len);
    assert(tail.messages =~= Seq::<MessageView>::empty());
    assert(seq![m] + tail.messages =~= seq![m]);
}

/// What is left of a stream between two reads is shorter than the longest
/// frame: a peer cannot make a reader keep more than that, whatever length
/// it declares.
pub proof fn lemma_rest_is_bounded(buf: Seq<u8>, max_len: u32)
    ensures
        drain_spec(buf, max_len).error is None ==> drain_spec(buf, max_len).rest.len() < 4
            + max_len,
        drain_spec(buf, max_len).rest.len() <= buf.len(),
    decreases buf.len(),
{
    match scan_of(buf, max_len) {
        FrameScan::Ready { len } => {
            if message_of_payload(buf.subrange(4, 4 + len)) is Ok {
                lemma_rest_is_bounded(buf.skip(4 + len), max_len);
            }
        },
        _ => {},
    }
}

/// A handler that goes on reading keeps less than one longest frame, and a
/// handler that is done keeps nothing.
pub proof fn lemma_pending_is_bounded(pending: Seq<u8>, read: ReadOutcome, max_len: u32)
    requires
        pending.len() < 4 + max_len,
    ensures
        read_step(HandlerState::Reading, pending, read, max_len).pending.len() < 4 + max_len,
        read_step(HandlerState::Reading, pending, read, max_len).state == HandlerState::Closed
            ==> read_step(HandlerState::Reading, pending, read, max_len).pending.len() == 0,
{
    if let ReadOutcome::Data(bytes) = read {
        lemma_rest_is_bounded(pending + bytes@, max_len);
    }
}

} // verus!
