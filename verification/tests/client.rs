use rschat::codec::Codec;
use rschat::handler::ReadOutcome;
use rschat::inbox::{Inbox, Next};
use rschat::input::message_text;
use rschat::message::{Message, Timestamp};
use rschat::mode::{key_action, Key, KeyAction, Mode};
use rschat::session::{palette, Color, Placement, Session, PALETTE_LEN};
use rschat::widgets::{Connecting, Help, MAX_DOTS};

fn stamp() -> Timestamp {
    Timestamp { secs_since_epoch: 99, nanos_since_epoch: 1 }
}

fn text(body: &str, author: &str) -> Message {
    Message::new(body.to_string(), stamp(), author.to_string())
}

#[test]
fn mode_switches_back_and_forth() {
    assert_eq!(Mode::InsertMode.switched(), Mode::NormalMode);
    assert_eq!(Mode::NormalMode.switched(), Mode::InsertMode);
    assert_eq!(Mode::InsertMode.switched().switched(), Mode::InsertMode);
}

#[test]
fn keys_in_normal_mode() {
    let mode = Mode::NormalMode;
    assert_eq!(key_action(mode, Key::Esc), KeyAction::SwitchMode);
    assert_eq!(key_action(mode, Key::Enter), KeyAction::SendMessage);
    assert_eq!(key_action(mode, Key::Char('a')), KeyAction::SwitchMode);
    assert_eq!(key_action(mode, Key::Char('q')), KeyAction::Quit);
    assert_eq!(key_action(mode, Key::Char('x')), KeyAction::Ignore);
    assert_eq!(key_action(mode, Key::Char('A')), KeyAction::Ignore);
    assert_eq!(key_action(mode, Key::Other), KeyAction::Ignore);
}

#[test]
fn keys_in_insert_mode() {
    let mode = Mode::InsertMode;
    assert_eq!(key_action(mode, Key::Esc), KeyAction::SwitchMode);
    assert_eq!(key_action(mode, Key::Enter), KeyAction::SendMessage);
    assert_eq!(key_action(mode, Key::Char('a')), KeyAction::Edit);
    assert_eq!(key_action(mode, Key::Char('q')), KeyAction::Edit);
    assert_eq!(key_action(mode, Key::Char('x')), KeyAction::Edit);
    assert_eq!(key_action(mode, Key::Other), KeyAction::Edit);
}

#[test]
fn connecting_grows_three_dots_and_starts_over() {
    assert_eq!(MAX_DOTS, 3);
    let mut notice = Connecting::new();
    assert_eq!(notice.message(), "Connecting to server");
    notice.advance();
    assert_eq!(notice.message(), "Connecting to server.");
    notice.advance();
    assert_eq!(notice.message(), "Connecting to server..");
    notice.advance();
    assert_eq!(notice.message(), "Connecting to server...");
    notice.advance();
    assert_eq!(notice.message(), "Connecting to server");
    notice.advance();
    assert_eq!(notice.message(), "Connecting to server.");
}

#[test]
fn help_line_in_normal_mode() {
    let mode = Mode::NormalMode;
    let line: Vec<(&str, bool)> =
        Help::new(&mode).segments().iter().map(|s| (s.text, s.key)).collect();
    assert_eq!(
        line,
        vec![
            ("Press ", false),
            ("q", true),
            (" to exit, ", false),
            ("a", true),
            (" to start editing message.", false),
        ]
    );
}

#[test]
fn help_line_in_insert_mode() {
    let mode = Mode::InsertMode;
    let line: Vec<(&str, bool)> =
        Help::new(&mode).segments().iter().map(|s| (s.text, s.key)).collect();
    assert_eq!(
        line,
        vec![
            ("Press ", false),
            ("ESC", true),
            (" to stop editing, ", false),
            ("ENTER", true),
            (" to send message", false),
        ]
    );
}

#[test]
fn palette_has_fourteen_colours_and_no_cyan() {
    assert_eq!(PALETTE_LEN, 14);
    let all: Vec<Color> = (0..PALETTE_LEN).map(palette).collect();
    assert_eq!(
        all,
        vec![
            Color::Red,
            Color::Green,
            Color::Yellow,
            Color::Blue,
            Color::Magenta,
            Color::Gray,
            Color::DarkGray,
            Color::LightRed,
            Color::LightGreen,
            Color::LightYellow,
            Color::LightBlue,
            Color::LightMagenta,
            Color::LightCyan,
            Color::White,
        ]
    );
    assert!(!all.contains(&Color::Cyan));
}

#[test]
fn the_user_is_always_cyan() {
    let session = Session::new("me".to_string());
    assert_eq!(session.user(), "me");
    assert!(session.knows(&"me".to_string()));
    assert!(!session.knows(&"you".to_string()));
    assert_eq!(session.get_user_color(&"me".to_string()), Color::Cyan);
    assert_eq!(session.last_n_msgs(5).len(), 0);
}

#[test]
fn a_colour_once_assigned_stays() {
    let mut session = Session::new("me".to_string());
    session.assign_color_with("you".to_string(), 3);
    assert_eq!(session.get_user_color(&"you".to_string()), Color::Blue);
    session.assign_color_with("you".to_string(), 0);
    assert_eq!(session.get_user_color(&"you".to_string()), Color::Blue);
    session.assign_color_with("me".to_string(), 0);
    assert_eq!(session.get_user_color(&"me".to_string()), Color::Cyan);
    session.assign_color_with("them".to_string(), 13);
    assert_eq!(session.get_user_color(&"them".to_string()), Color::White);
    assert_eq!(session.get_user_color(&"you".to_string()), Color::Blue);
}

#[test]
fn a_random_colour_comes_from_the_palette() {
    let palette_colors: Vec<Color> = (0..PALETTE_LEN).map(palette).collect();
    let mut session = Session::new("me".to_string());
    let mut seen: Vec<Color> = Vec::new();
    for i in 0..200 {
        let name = format!("user{i}");
        session.assign_user_color(name.clone());
        let color = session.get_user_color(&name);
        assert!(palette_colors.contains(&color));
        if !seen.contains(&color) {
            seen.push(color);
        }
        session.assign_user_color(name.clone());
        assert_eq!(session.get_user_color(&name), color);
    }
    assert!(seen.len() > 1);
    session.assign_user_color("me".to_string());
    assert_eq!(session.get_user_color(&"me".to_string()), Color::Cyan);
}

#[test]
fn last_n_msgs_gives_the_newest_oldest_first() {
    let mut session = Session::new("me".to_string());
    for body in ["a", "b", "c", "d"] {
        session.new_message(text(body, "you"));
    }
    let last: Vec<(usize, String)> =
        session.last_n_msgs(3).iter().map(|(i, m)| (*i, m.body.clone())).collect();
    assert_eq!(last, vec![(0, "b".to_string()), (1, "c".to_string()), (2, "d".to_string())]);
    let all: Vec<(usize, String)> =
        session.last_n_msgs(10).iter().map(|(i, m)| (*i, m.body.clone())).collect();
    assert_eq!(
        all,
        vec![
            (0, "a".to_string()),
            (1, "b".to_string()),
            (2, "c".to_string()),
            (3, "d".to_string())
        ]
    );
    assert_eq!(session.last_n_msgs(4).len(), 4);
    assert_eq!(session.last_n_msgs(0).len(), 0);
}

#[test]
fn receive_colours_the_author_and_keeps_the_message() {
    let mut session = Session::new("me".to_string());
    session.receive(text("hello", "you"));
    assert!(session.knows(&"you".to_string()));
    assert_ne!(session.get_user_color(&"you".to_string()), Color::Cyan);
    session.receive(text("mine", "me"));
    assert_eq!(session.get_user_color(&"me".to_string()), Color::Cyan);
    let bodies: Vec<String> = session.last_n_msgs(5).iter().map(|(_, m)| m.body.clone()).collect();
    assert_eq!(bodies, vec!["hello", "mine"]);
}

#[test]
fn compose_signs_with_the_user() {
    let session = Session::new("me".to_string());
    let m = session.compose("hello".to_string(), stamp());
    assert!(m.same(&text("hello", "me")));
}

#[test]
fn placements_put_own_messages_apart() {
    let mut session = Session::new("me".to_string());
    session.assign_color_with("you".to_string(), 1);
    session.new_message(text("old", "you"));
    session.new_message(text("one", "you"));
    session.new_message(text("two", "me"));
    session.new_message(text("three", "stranger"));
    assert_eq!(
        session.placements(3),
        vec![
            Placement { slot: 0, own: false, color: Some(Color::Green) },
            Placement { slot: 1, own: true, color: Some(Color::Cyan) },
            Placement { slot: 2, own: false, color: None },
        ]
    );
    assert_eq!(session.placements(5).len(), 4);
    assert_eq!(session.placements(0), Vec::<Placement>::new());
}

#[test]
fn message_text_joins_the_lines() {
    assert_eq!(message_text(&[]), None);
    assert_eq!(message_text(&["".to_string()]), None);
    assert_eq!(message_text(&["".to_string(), "".to_string()]), None);
    assert_eq!(message_text(&["hello".to_string()]), Some("hello".to_string()));
    assert_eq!(
        message_text(&["hel".to_string(), "".to_string(), "lo".to_string()]),
        Some("hello".to_string())
    );
    assert_eq!(message_text(&[" ".to_string()]), Some(" ".to_string()));
}

#[test]
fn inbox_collects_messages_across_reads() {
    let codec = Codec::default();
    let mut stream = codec.encode(&text("one", "you")).unwrap();
    stream.extend(codec.encode(&text("two", "you")).unwrap());
    let cut = stream.len() - 5;
    let mut inbox = Inbox::new(codec);
    let (messages, next) = inbox.on_read(ReadOutcome::Data(stream[..cut].to_vec()));
    assert_eq!(next, Next::Read);
    assert_eq!(messages.len(), 1);
    assert!(messages[0].same(&text("one", "you")));
    let (messages, next) = inbox.on_read(ReadOutcome::WouldBlock);
    assert_eq!(next, Next::Wait);
    assert!(messages.is_empty());
    let (messages, next) = inbox.on_read(ReadOutcome::Data(stream[cut..].to_vec()));
    assert_eq!(next, Next::Read);
    assert_eq!(messages.len(), 1);
    assert!(messages[0].same(&text("two", "you")));
}

#[test]
fn inbox_passes_over_a_payload_it_cannot_decode() {
    let codec = Codec::default();
    let mut stream = codec.encode(&text("one", "you")).unwrap();
    stream.extend_from_slice(&[0, 0, 0, 4, b'j', b'u', b'n', b'k']);
    stream.extend_from_slice(&[0, 0, 0, 1, 0xff]);
    stream.extend(codec.encode(&text("two", "you")).unwrap());
    let mut inbox = Inbox::new(codec);
    let (messages, next) = inbox.on_read(ReadOutcome::Data(stream));
    assert_eq!(next, Next::Read);
    let bodies: Vec<String> = messages.into_iter().map(|m| m.body).collect();
    assert_eq!(bodies, vec!["one", "two"]);
}

#[test]
fn inbox_stops_at_end_of_stream_failure_and_oversize() {
    let codec = Codec::new(100);
    let mut inbox = Inbox::new(codec);
    let (messages, next) = inbox.on_read(ReadOutcome::Data(Vec::new()));
    assert!(messages.is_empty());
    assert_eq!(next, Next::Stop);
    let (messages, next) = inbox.on_read(ReadOutcome::Failed);
    assert!(messages.is_empty());
    assert_eq!(next, Next::Stop);
    let mut stream = codec.encode(&text("one", "you")).unwrap();
    stream.extend_from_slice(&[0, 0, 0, 101, 1, 2, 3]);
    let (messages, next) = inbox.on_read(ReadOutcome::Data(stream));
    assert_eq!(messages.len(), 1);
    assert_eq!(next, Next::Stop);
}
