use std::collections::BTreeMap;

use chat_relay::message::{Frame, Message};
use chat_relay::server::{frame_event, frame_written_event, Action, DbRequest, Event, SendRequest, Session};
use chat_relay::store::{apply_db_request, next_for_user};

fn msg(ts: u64, sender: &str, receiver: &str, payload: &str) -> Message {
    Message { ts, sender: sender.to_string(), receiver: receiver.to_string(), payload: payload.to_string() }
}

fn store() -> BTreeMap<u64, Message> {
    let mut db = BTreeMap::new();
    db.insert(7, msg(7, "aa", "bb", "third"));
    db.insert(3, msg(3, "bb", "aa", "for aa"));
    db.insert(5, msg(5, "cc", "bb", "first"));
    db
}

fn sent_ts(actions: &[Action]) -> Vec<u64> {
    actions
        .iter()
        .filter_map(|a| match a {
            Action::Send { to_sender: SendRequest::Send { msg: Frame::Msg { data } } } => Some(data.ts),
            _ => None,
        })
        .collect()
}

#[test]
fn next_for_user_takes_the_oldest_newer_message() {
    let db = store();
    let bb = "bb".to_string();
    let (ts, m) = next_for_user(&db, &bb, 0).unwrap();
    assert_eq!((ts, m.payload.as_str()), (5, "first"));
    assert_eq!(next_for_user(&db, &bb, 5).unwrap().0, 7);
    assert!(next_for_user(&db, &bb, 7).is_none());
    assert_eq!(next_for_user(&db, &"aa".to_string(), 0).unwrap().0, 3);
    assert!(next_for_user(&db, &"dd".to_string(), 0).is_none());
    assert!(next_for_user(&BTreeMap::new(), &bb, 0).is_none());
}

#[test]
fn apply_save_and_remove() {
    let mut db = BTreeMap::new();
    match apply_db_request(&mut db, DbRequest::Save { msg: msg(4, "aa", "bb", "x") }) {
        Event::OnMsgStored { msg } => assert_eq!(msg.ts, 4),
        other => panic!("unexpected {:?}", other),
    }
    assert_eq!(db[&4].payload, "x");
    match apply_db_request(&mut db, DbRequest::Remove { ts: 4 }) {
        Event::OnMsgRemoved { ts } => assert_eq!(ts, 4),
        other => panic!("unexpected {:?}", other),
    }
    assert!(db.is_empty());
    match apply_db_request(&mut db, DbRequest::Remove { ts: 9 }) {
        Event::OnMsgRemoved { ts } => assert_eq!(ts, 9),
        other => panic!("unexpected {:?}", other),
    }
}

#[test]
fn applied_requests_keep_messages_under_their_timestamps() {
    let mut db = BTreeMap::new();
    apply_db_request(&mut db, DbRequest::Save { msg: msg(4, "aa", "bb", "x") });
    apply_db_request(&mut db, DbRequest::Save { msg: msg(2, "cc", "bb", "y") });
    apply_db_request(&mut db, DbRequest::Save { msg: msg(4, "dd", "aa", "z") });
    apply_db_request(&mut db, DbRequest::Remove { ts: 2 });
    assert_eq!(db.len(), 1);
    for (k, m) in db.iter() {
        assert_eq!(*k, m.ts);
    }
}

#[test]
fn sends_over_many_events_are_increasing_and_addressed() {
    let mut db = store();
    let mut s = Session::new();
    let mut sent: Vec<(u64, String)> = Vec::new();
    let mut record = |actions: Vec<Action>| {
        for a in actions {
            if let Action::Send { to_sender: SendRequest::Send { msg: Frame::Msg { data } } } = a {
                sent.push((data.ts, data.receiver));
            }
        }
    };
    record(s.on_event(Event::OnHello { user: "bb".to_string() }, &db));
    apply_db_request(&mut db, DbRequest::Save { msg: msg(6, "aa", "bb", "late") });
    apply_db_request(&mut db, DbRequest::Save { msg: msg(1, "aa", "bb", "old") });
    record(s.on_event(Event::OnMsgRcvd { msg: msg(6, "aa", "bb", "late") }, &db));
    record(s.on_event(Event::OnFrameWritten { user: "bb".to_string() }, &db));
    record(s.on_event(Event::OnFrameWritten { user: "bb".to_string() }, &db));
    let ts: Vec<u64> = sent.iter().map(|(t, _)| *t).collect();
    assert_eq!(ts, vec![5, 6, 7]);
    assert!(sent.iter().all(|(_, r)| r == "bb"));
}

#[test]
fn hello_registers_then_delivers() {
    let db = store();
    let mut s = Session::new();
    let actions = s.on_event(Event::OnHello { user: "bb".to_string() }, &db);
    assert_eq!(actions.len(), 2);
    assert!(matches!(&actions[0], Action::Register { user } if user == "bb"));
    assert_eq!(sent_ts(&actions), vec![5]);
    assert_eq!(s.last_ts, 5);
}

#[test]
fn hello_with_nothing_pending_only_registers() {
    let db = store();
    let mut s = Session::new();
    let actions = s.on_event(Event::OnHello { user: "dd".to_string() }, &db);
    assert_eq!(actions.len(), 1);
    assert!(matches!(&actions[0], Action::Register { user } if user == "dd"));
    assert_eq!(s.last_ts, 0);
}

#[test]
fn deliveries_go_in_timestamp_order_and_never_repeat() {
    let db = store();
    let mut s = Session::new();
    let mut delivered = Vec::new();
    delivered.extend(sent_ts(&s.on_event(Event::OnHello { user: "bb".to_string() }, &db)));
    for _ in 0..3 {
        delivered.extend(sent_ts(&s.on_event(Event::OnFrameWritten { user: "bb".to_string() }, &db)));
    }
    assert_eq!(delivered, vec![5, 7]);
    assert_eq!(s.last_ts, 7);
}

#[test]
fn received_message_triggers_delivery_to_its_receiver() {
    let db = store();
    let mut s = Session::new();
    let actions = s.on_event(Event::OnMsgRcvd { msg: msg(3, "bb", "aa", "for aa") }, &db);
    assert_eq!(sent_ts(&actions), vec![3]);
    assert_eq!(s.last_ts, 3);
}

#[test]
fn ack_and_sent_message_go_to_the_database_worker() {
    let db = store();
    let mut s = Session::new();
    let actions = s.on_event(Event::OnAck { ts: 5 }, &db);
    assert!(matches!(actions.as_slice(), [Action::Store { to_db: DbRequest::Remove { ts: 5 } }]));
    let actions = s.on_event(Event::OnMsgSent { msg: msg(9, "aa", "cc", "yo") }, &db);
    assert!(matches!(actions.as_slice(), [Action::Store { to_db: DbRequest::Save { msg } }] if msg.ts == 9 && msg.payload == "yo"));
    assert_eq!(s.last_ts, 0);
}

#[test]
fn stored_message_is_acknowledged_and_announced() {
    let db = store();
    let mut s = Session::new();
    let actions = s.on_event(Event::OnMsgStored { msg: msg(9, "aa", "cc", "yo") }, &db);
    assert_eq!(actions.len(), 2);
    assert!(matches!(&actions[0], Action::Send { to_sender: SendRequest::Send { msg: Frame::ServerAck { ts: 9 } } }));
    assert!(matches!(&actions[1], Action::Notify { user, event: Event::OnMsgRcvd { msg } } if user == "cc" && msg.ts == 9));
}

#[test]
fn removed_message_does_nothing() {
    let db = store();
    let mut s = Session::new();
    assert!(s.on_event(Event::OnMsgRemoved { ts: 5 }, &db).is_empty());
}

#[test]
fn acknowledged_message_is_not_delivered_again() {
    let mut db = store();
    let mut s = Session::new();
    let first = sent_ts(&s.on_event(Event::OnHello { user: "bb".to_string() }, &db));
    assert_eq!(first, vec![5]);
    apply_db_request(&mut db, DbRequest::Remove { ts: 5 });
    let mut fresh = Session::new();
    let again = sent_ts(&fresh.on_event(Event::OnHello { user: "bb".to_string() }, &db));
    assert_eq!(again, vec![7]);
}

#[test]
fn frames_from_a_client_raise_events() {
    assert!(matches!(frame_event(Frame::Hello { user: "aa".to_string() }), Some(Event::OnHello { user }) if user == "aa"));
    assert!(matches!(frame_event(Frame::Msg { data: msg(1, "aa", "bb", "p") }), Some(Event::OnMsgSent { msg }) if msg.ts == 1));
    assert!(matches!(frame_event(Frame::ClientAck { ts: 8 }), Some(Event::OnAck { ts: 8 })));
    assert!(frame_event(Frame::ServerAck { ts: 8 }).is_none());
}

#[test]
fn written_message_raises_frame_written() {
    assert!(matches!(frame_written_event(&Frame::Msg { data: msg(1, "aa", "bb", "p") }), Some(Event::OnFrameWritten { user }) if user == "bb"));
    assert!(frame_written_event(&Frame::ServerAck { ts: 1 }).is_none());
    assert!(frame_written_event(&Frame::Hello { user: "aa".to_string() }).is_none());
}
