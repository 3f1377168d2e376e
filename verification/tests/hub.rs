use rschat::address::PeerAddr;
use rschat::codec::Codec;
use rschat::event::{Connection, ServerEvent};
use rschat::hub::{Broadcast, Hub};
use rschat::message::{Message, Timestamp};
use rschat::registry::ClientRegistry;

fn v4(last: u8, port: u16) -> PeerAddr {
    PeerAddr::V4 { ip: 0x7f00_0000 + last as u32, port }
}

fn text(body: &str, author: &str) -> Message {
    Message::new(
        body.to_string(),
        Timestamp { secs_since_epoch: 1_700_000_000, nanos_since_epoch: 5 },
        author.to_string(),
    )
}

fn connect(hub: &mut Hub<&'static str>, addr: PeerAddr, handle: &'static str) {
    assert!(hub.handle(ServerEvent::Connected(Connection::new(addr, handle))).is_none());
}

/// Plays a broadcast to its end, the write to each of `failing` failing, and
/// gives back who was written to, in order.
fn play(broadcast: &mut Broadcast, failing: &[PeerAddr]) -> Vec<PeerAddr> {
    let mut written = Vec::new();
    while let Some(to) = broadcast.next_recipient() {
        written.push(to);
        broadcast.record(!failing.contains(&to));
    }
    written
}

#[test]
fn peer_addr_equality() {
    assert_eq!(v4(1, 80), v4(1, 80));
    assert_ne!(v4(1, 80), v4(1, 81));
    assert_ne!(v4(1, 80), v4(2, 80));
    let six = PeerAddr::V6 { ip: 1, port: 9000, flowinfo: 0, scope_id: 0 };
    assert_ne!(six, PeerAddr::V6 { ip: 1, port: 9000, flowinfo: 0, scope_id: 1 });
    assert_ne!(six, PeerAddr::V6 { ip: 1, port: 9000, flowinfo: 1, scope_id: 0 });
    assert_ne!(six, PeerAddr::V4 { ip: 1, port: 9000 });
    assert_eq!(six, PeerAddr::V6 { ip: 1, port: 9000, flowinfo: 0, scope_id: 0 });
}

#[test]
fn registry_insert_get_remove() {
    let mut reg: ClientRegistry<u32> = ClientRegistry::new();
    assert!(reg.is_empty());
    assert_eq!(reg.len(), 0);
    assert!(reg.insert(Connection::new(v4(1, 1), 10)).is_none());
    assert!(reg.insert(Connection::new(v4(2, 2), 20)).is_none());
    assert_eq!(reg.len(), 2);
    assert!(!reg.is_empty());
    assert!(reg.contains(v4(1, 1)));
    assert!(!reg.contains(v4(3, 3)));
    assert_eq!(reg.get(v4(1, 1)), Some(&10));
    assert_eq!(reg.get(v4(2, 2)), Some(&20));
    assert_eq!(reg.get(v4(3, 3)), None);
    let removed = reg.remove(v4(1, 1)).unwrap();
    assert_eq!(removed.addr, v4(1, 1));
    assert_eq!(removed.handle, 10);
    assert_eq!(reg.len(), 1);
    assert!(!reg.contains(v4(1, 1)));
    assert_eq!(reg.get(v4(2, 2)), Some(&20));
}

#[test]
fn registry_insert_replaces_the_entry_of_an_address() {
    let mut reg: ClientRegistry<u32> = ClientRegistry::new();
    reg.insert(Connection::new(v4(1, 1), 10));
    reg.insert(Connection::new(v4(2, 2), 20));
    let replaced = reg.insert(Connection::new(v4(1, 1), 11)).unwrap();
    assert_eq!(replaced.handle, 10);
    assert_eq!(replaced.addr, v4(1, 1));
    assert_eq!(reg.len(), 2);
    assert_eq!(reg.get(v4(1, 1)), Some(&11));
    assert_eq!(reg.others(v4(9, 9)), vec![v4(1, 1), v4(2, 2)]);
}

#[test]
fn registry_remove_of_an_absent_address_does_nothing() {
    let mut reg: ClientRegistry<u32> = ClientRegistry::new();
    assert!(reg.remove(v4(1, 1)).is_none());
    reg.insert(Connection::new(v4(1, 1), 10));
    assert!(reg.remove(v4(2, 2)).is_none());
    assert_eq!(reg.len(), 1);
    assert!(reg.remove(v4(1, 1)).is_some());
    assert!(reg.remove(v4(1, 1)).is_none());
    assert_eq!(reg.len(), 0);
}

#[test]
fn registry_others_leaves_out_the_sender() {
    let mut reg: ClientRegistry<u32> = ClientRegistry::new();
    assert_eq!(reg.others(v4(1, 1)), Vec::<PeerAddr>::new());
    reg.insert(Connection::new(v4(1, 1), 10));
    reg.insert(Connection::new(v4(2, 2), 20));
    reg.insert(Connection::new(v4(3, 3), 30));
    assert_eq!(reg.others(v4(1, 1)), vec![v4(2, 2), v4(3, 3)]);
    assert_eq!(reg.others(v4(2, 2)), vec![v4(1, 1), v4(3, 3)]);
    assert_eq!(reg.others(v4(3, 3)), vec![v4(1, 1), v4(2, 2)]);
    assert_eq!(reg.others(v4(4, 4)), vec![v4(1, 1), v4(2, 2), v4(3, 3)]);
}

#[test]
fn registry_follows_connects_and_disconnects() {
    let (a, b, c) = (v4(1, 1), v4(2, 2), v4(3, 3));
    let mut hub: Hub<&'static str> = Hub::new(Codec::default());
    connect(&mut hub, a, "a");
    connect(&mut hub, b, "b");
    assert!(hub.handle(ServerEvent::Disconnected(a)).is_none());
    connect(&mut hub, c, "c");
    connect(&mut hub, a, "a again");
    assert!(hub.handle(ServerEvent::Disconnected(b)).is_none());
    assert!(hub.handle(ServerEvent::Disconnected(b)).is_none());
    assert!(hub.registry().contains(a));
    assert!(!hub.registry().contains(b));
    assert!(hub.registry().contains(c));
    assert_eq!(hub.registry().len(), 2);
    assert_eq!(hub.registry().get(a), Some(&"a again"));
    assert_eq!(hub.registry().others(b), vec![c, a]);
}

#[test]
fn duplicate_disconnects_are_no_ops() {
    let (a, b) = (v4(1, 1), v4(2, 2));
    let mut hub: Hub<&'static str> = Hub::new(Codec::default());
    assert!(hub.handle(ServerEvent::Disconnected(a)).is_none());
    assert_eq!(hub.registry().len(), 0);
    connect(&mut hub, a, "a");
    connect(&mut hub, b, "b");
    assert!(hub.handle(ServerEvent::Disconnected(a)).is_none());
    assert!(hub.handle(ServerEvent::Disconnected(a)).is_none());
    assert_eq!(hub.registry().len(), 1);
    assert_eq!(hub.registry().get(b), Some(&"b"));
}

#[test]
fn a_second_connect_on_an_address_replaces_the_first() {
    let a = v4(1, 1);
    let mut hub: Hub<&'static str> = Hub::new(Codec::default());
    connect(&mut hub, a, "old");
    connect(&mut hub, a, "new");
    assert_eq!(hub.registry().len(), 1);
    assert_eq!(hub.registry().get(a), Some(&"new"));
}

#[test]
fn broadcast_goes_to_everyone_but_the_sender() {
    let codec = Codec::default();
    let (a, b, c, d) = (v4(1, 1), v4(2, 2), v4(3, 3), v4(4, 4));
    let mut hub: Hub<&'static str> = Hub::new(codec);
    connect(&mut hub, a, "a");
    connect(&mut hub, b, "b");
    connect(&mut hub, c, "c");
    connect(&mut hub, d, "d");
    let m = text("hello", "bee");
    let mut broadcast = hub.handle(ServerEvent::Inbound(b, m.clone())).unwrap();
    assert_eq!(broadcast.frame(), &codec.encode(&m).unwrap()[..]);
    assert_eq!(broadcast.recipients(), &[a, c, d]);
    assert_eq!(broadcast.recipients().len(), hub.registry().len() - 1);
    assert_eq!(play(&mut broadcast, &[]), vec![a, c, d]);
    assert_eq!(broadcast.next_recipient(), None);
    assert_eq!(broadcast.failed(), Vec::<PeerAddr>::new());
    hub.settle(broadcast);
    assert_eq!(hub.registry().len(), 4);
}

#[test]
fn broadcast_from_an_unregistered_sender_goes_to_all() {
    let (a, b) = (v4(1, 1), v4(2, 2));
    let mut hub: Hub<&'static str> = Hub::new(Codec::default());
    connect(&mut hub, a, "a");
    connect(&mut hub, b, "b");
    let broadcast = hub.handle(ServerEvent::Inbound(v4(9, 9), text("hello", "nine"))).unwrap();
    assert_eq!(broadcast.recipients(), &[a, b]);
    assert_eq!(broadcast.recipients().len(), hub.registry().len());
}

#[test]
fn broadcast_with_nobody_else_has_no_recipient() {
    let a = v4(1, 1);
    let mut hub: Hub<&'static str> = Hub::new(Codec::default());
    connect(&mut hub, a, "a");
    let broadcast = hub.handle(ServerEvent::Inbound(a, text("alone", "a"))).unwrap();
    assert_eq!(broadcast.recipients().len(), 0);
    assert_eq!(broadcast.next_recipient(), None);
}

#[test]
fn a_message_that_does_not_encode_starts_no_broadcast() {
    let (a, b) = (v4(1, 1), v4(2, 2));
    let mut hub: Hub<&'static str> = Hub::new(Codec::new(8));
    connect(&mut hub, a, "a");
    connect(&mut hub, b, "b");
    assert!(hub.handle(ServerEvent::Inbound(a, text("far too long for eight bytes", "a"))).is_none());
    assert_eq!(hub.registry().len(), 2);
}

#[test]
fn a_failed_write_does_not_stop_the_others() {
    let (a, b, c, d) = (v4(1, 1), v4(2, 2), v4(3, 3), v4(4, 4));
    let mut hub: Hub<&'static str> = Hub::new(Codec::default());
    connect(&mut hub, a, "a");
    connect(&mut hub, b, "b");
    connect(&mut hub, c, "c");
    connect(&mut hub, d, "d");
    let mut broadcast = hub.handle(ServerEvent::Inbound(a, text("hello", "a"))).unwrap();
    assert_eq!(broadcast.next_recipient(), Some(b));
    broadcast.record(false);
    assert_eq!(broadcast.next_recipient(), Some(c));
    broadcast.record(true);
    assert_eq!(broadcast.next_recipient(), Some(d));
    broadcast.record(false);
    assert_eq!(broadcast.next_recipient(), None);
    broadcast.record(false);
    assert_eq!(broadcast.next_recipient(), None);
    assert_eq!(broadcast.failed(), vec![b, d]);
    hub.settle(broadcast);
    assert!(hub.registry().contains(a));
    assert!(!hub.registry().contains(b));
    assert!(hub.registry().contains(c));
    assert!(!hub.registry().contains(d));
    assert_eq!(hub.registry().len(), 2);
}

#[test]
fn settling_an_unplayed_broadcast_removes_nobody() {
    let (a, b) = (v4(1, 1), v4(2, 2));
    let mut hub: Hub<&'static str> = Hub::new(Codec::default());
    connect(&mut hub, a, "a");
    connect(&mut hub, b, "b");
    let broadcast = hub.handle(ServerEvent::Inbound(a, text("hello", "a"))).unwrap();
    hub.settle(broadcast);
    assert_eq!(hub.registry().len(), 2);
}

#[test]
fn messages_of_one_sender_go_out_in_order() {
    let codec = Codec::default();
    let (a, b, c) = (v4(1, 1), v4(2, 2), v4(3, 3));
    let mut hub: Hub<&'static str> = Hub::new(codec);
    connect(&mut hub, a, "a");
    connect(&mut hub, b, "b");
    connect(&mut hub, c, "c");
    let mut log: Vec<(PeerAddr, Vec<u8>)> = Vec::new();
    for body in ["first", "second", "third"] {
        let mut broadcast = hub.handle(ServerEvent::Inbound(a, text(body, "a"))).unwrap();
        for to in play(&mut broadcast, &[]) {
            log.push((to, broadcast.frame().to_vec()));
        }
        hub.settle(broadcast);
    }
    for to in [b, c] {
        let seen: Vec<String> = log
            .iter()
            .filter(|(who, _)| *who == to)
            .map(|(_, frame)| codec.decode(frame).unwrap().body)
            .collect();
        assert_eq!(seen, vec!["first", "second", "third"]);
    }
    assert!(log.iter().all(|(who, _)| *who != a));
    assert_eq!(log.len(), 6);
}

#[test]
fn three_clients_scenario() {
    let codec = Codec::default();
    let (a, b, c) = (v4(1, 4001), v4(1, 4002), v4(1, 4003));
    let mut hub: Hub<&'static str> = Hub::new(codec);
    connect(&mut hub, a, "A");
    connect(&mut hub, b, "B");
    connect(&mut hub, c, "C");

    let mut first = hub.handle(ServerEvent::Inbound(a, text("hi", "A"))).unwrap();
    let written = play(&mut first, &[]);
    assert_eq!(written, vec![b, c]);
    let got = codec.decode(first.frame()).unwrap();
    assert_eq!(got.author, "A");
    assert_eq!(got.body, "hi");
    assert!(!written.contains(&a));
    hub.settle(first);

    assert!(hub.handle(ServerEvent::Disconnected(c)).is_none());

    let mut second = hub.handle(ServerEvent::Inbound(a, text("bye", "A"))).unwrap();
    let written = play(&mut second, &[]);
    assert_eq!(written, vec![b]);
    let got = codec.decode(second.frame()).unwrap();
    assert_eq!(got.author, "A");
    assert_eq!(got.body, "bye");
    hub.settle(second);
    assert_eq!(hub.registry().len(), 2);
}
