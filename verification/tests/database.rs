use chat_relay::database::Database;
use chat_relay::message::Message;

fn msg(ts: u64, sender: &str, receiver: &str, payload: &str) -> Message {
    Message { ts, sender: sender.to_string(), receiver: receiver.to_string(), payload: payload.to_string() }
}

#[test]
fn new_database_is_empty() {
    let db = Database::new();
    assert!(db.get("bb".to_string()).is_none());
}

#[test]
fn saved_message_can_be_read_back() {
    let mut db = Database::new();
    assert!(db.save(&msg(10, "aa", "bb", "hi")).is_ok());
    let inbox = db.get("bb".to_string()).expect("mailbox of bb");
    assert_eq!(inbox.len(), 1);
    let m = &inbox[&10];
    assert_eq!((m.ts, m.sender.as_str(), m.receiver.as_str(), m.payload.as_str()), (10, "aa", "bb", "hi"));
    assert!(db.get("aa".to_string()).is_none());
}

#[test]
fn save_under_same_timestamp_replaces() {
    let mut db = Database::new();
    db.save(&msg(10, "aa", "bb", "first")).unwrap();
    db.save(&msg(10, "cc", "bb", "second")).unwrap();
    db.save(&msg(11, "cc", "bb", "third")).unwrap();
    let inbox = db.get("bb".to_string()).unwrap();
    assert_eq!(inbox.len(), 2);
    assert_eq!(inbox[&10].payload, "second");
    assert_eq!(inbox[&11].payload, "third");
}

#[test]
fn mailboxes_are_kept_per_receiver() {
    let mut db = Database::new();
    db.save(&msg(1, "aa", "bb", "x")).unwrap();
    db.save(&msg(1, "aa", "cc", "y")).unwrap();
    assert_eq!(db.get("bb".to_string()).unwrap()[&1].payload, "x");
    assert_eq!(db.get("cc".to_string()).unwrap()[&1].payload, "y");
}

#[test]
fn remove_drops_one_message_and_keeps_the_mailbox() {
    let mut db = Database::new();
    db.save(&msg(1, "aa", "bb", "x")).unwrap();
    db.save(&msg(2, "aa", "bb", "y")).unwrap();
    db.remove("bb".to_string(), 1);
    let inbox = db.get("bb".to_string()).unwrap();
    assert_eq!(inbox.len(), 1);
    assert!(inbox.contains_key(&2));
    db.remove("bb".to_string(), 2);
    assert!(db.get("bb".to_string()).unwrap().is_empty());
}

#[test]
fn remove_for_unknown_receiver_or_timestamp_changes_nothing() {
    let mut db = Database::new();
    db.save(&msg(1, "aa", "bb", "x")).unwrap();
    db.remove("zz".to_string(), 1);
    db.remove("bb".to_string(), 99);
    assert!(db.get("zz".to_string()).is_none());
    assert_eq!(db.get("bb".to_string()).unwrap().len(), 1);
}
