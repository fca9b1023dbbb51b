use chat_relay::message::{Frame, Message};

#[test]
fn clones_keep_every_field() {
    let m = Message { ts: 7, sender: "aa".to_string(), receiver: "bb".to_string(), payload: "p".to_string() };
    let c = m.clone();
    assert_eq!((c.ts, c.sender.as_str(), c.receiver.as_str(), c.payload.as_str()), (7, "aa", "bb", "p"));
    let f = Frame::Msg { data: m }.clone();
    assert!(matches!(f, Frame::Msg { data } if data.payload == "p" && data.ts == 7));
    assert!(matches!(Frame::ClientAck { ts: 3 }.clone(), Frame::ClientAck { ts: 3 }));
    assert!(matches!(Frame::ServerAck { ts: 4 }.clone(), Frame::ServerAck { ts: 4 }));
    assert!(matches!(Frame::Hello { user: "u".to_string() }.clone(), Frame::Hello { user } if user == "u"));
}
