use chat_relay::clients::Clients;

#[test]
fn added_client_is_a_send_target() {
    let mut c: Clients<u32> = Clients::new();
    c.add("aa".to_string(), 1);
    c.add("bb".to_string(), 2);
    assert_eq!(c.send_target("aa"), Ok(&1));
    assert_eq!(c.send_target("bb"), Ok(&2));
}

#[test]
fn unknown_client_is_an_error() {
    let c: Clients<u32> = Clients::new();
    assert_eq!(c.send_target("zz"), Err("Client 'zz' not found".to_string()));
}

#[test]
fn add_replaces_and_remove_disconnects() {
    let mut c: Clients<u32> = Clients::new();
    c.add("aa".to_string(), 1);
    c.add("aa".to_string(), 5);
    assert_eq!(c.send_target("aa"), Ok(&5));
    assert_eq!(c.broadcast_targets().len(), 1);
    c.remove("aa");
    assert_eq!(c.send_target("aa"), Err("Client 'aa' not found".to_string()));
    c.remove("aa");
    assert!(c.broadcast_targets().is_empty());
}

#[test]
fn broadcast_reaches_everyone_and_except_skips_one() {
    let mut c: Clients<u32> = Clients::new();
    for (i, id) in ["aa", "bb", "cc"].iter().enumerate() {
        c.add(id.to_string(), i as u32);
    }
    let mut all = c.broadcast_targets();
    all.sort();
    assert_eq!(all, vec!["aa", "bb", "cc"]);
    let mut some = c.broadcast_targets_except("bb");
    some.sort();
    assert_eq!(some, vec!["aa", "cc"]);
    let mut none_skipped = c.broadcast_targets_except("zz");
    none_skipped.sort();
    assert_eq!(none_skipped, vec!["aa", "bb", "cc"]);
}
