use chat_relay::client::ClientSession;
use chat_relay::message::{Frame, Message};

fn msg(ts: u64, sender: &str, receiver: &str, payload: &str) -> Message {
    Message { ts, sender: sender.to_string(), receiver: receiver.to_string(), payload: payload.to_string() }
}

#[test]
fn receivers_are_the_other_users() {
    assert_eq!(ClientSession::new("aa".to_string()).receivers(), vec!["bb", "cc", "dd"]);
    assert_eq!(ClientSession::new("cc".to_string()).receivers(), vec!["aa", "bb", "dd"]);
    assert_eq!(ClientSession::new("zz".to_string()).receivers(), vec!["aa", "bb", "cc", "dd"]);
}

#[test]
fn hello_names_the_client() {
    let s = ClientSession::new("bb".to_string());
    assert!(matches!(s.hello(), Frame::Hello { user } if user == "bb"));
}

#[test]
fn compose_picks_receiver_and_counts() {
    let mut s = ClientSession::new("aa".to_string());
    let m = s.compose(1000, 4);
    assert_eq!((m.ts, m.sender.as_str(), m.receiver.as_str(), m.payload.as_str()), (1000, "aa", "cc", "aa -> cc: 0"));
    let m = s.compose(2000, 0);
    assert_eq!((m.receiver.as_str(), m.payload.as_str()), ("bb", "aa -> bb: 1"));
    let m = s.compose(3000, usize::MAX);
    assert_eq!(m.receiver, ["bb", "cc", "dd"][usize::MAX % 3]);
    assert_eq!(m.payload, format!("aa -> {}: 2", m.receiver));
}

#[test]
fn random_messages_never_go_to_self() {
    let mut s = ClientSession::new("dd".to_string());
    for i in 0..50u64 {
        let m = s.next_message(i);
        assert_ne!(m.receiver, "dd");
        assert!(["aa", "bb", "cc"].contains(&m.receiver.as_str()));
        assert_eq!(m.sender, "dd");
        assert_eq!(m.ts, i);
        assert_eq!(m.payload, format!("dd -> {}: {}", m.receiver, i));
    }
}

#[test]
fn own_message_is_shown_and_acknowledged() {
    let s = ClientSession::new("bb".to_string());
    let r = s.on_frame(&Frame::Msg { data: msg(42, "aa", "bb", "hi") });
    let shown = r.display.expect("shown");
    assert_eq!((shown.ts, shown.payload.as_str()), (42, "hi"));
    assert!(matches!(r.ack, Some(Frame::ClientAck { ts: 42 })));
}

#[test]
fn others_message_is_acknowledged_but_not_shown() {
    let s = ClientSession::new("bb".to_string());
    let r = s.on_frame(&Frame::Msg { data: msg(43, "aa", "cc", "hi") });
    assert!(r.display.is_none());
    assert!(matches!(r.ack, Some(Frame::ClientAck { ts: 43 })));
}

#[test]
fn other_frames_are_ignored() {
    let s = ClientSession::new("bb".to_string());
    for f in [Frame::ServerAck { ts: 1 }, Frame::ClientAck { ts: 2 }, Frame::Hello { user: "x".to_string() }] {
        let r = s.on_frame(&f);
        assert!(r.display.is_none() && r.ack.is_none());
    }
}
