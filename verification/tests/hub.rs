use chat_hub::hub::chat_broadcast_text;
use chat_hub::hub::chat_text_at;
use chat_hub::hub::ChatServer;

#[test]
fn first_login_sequence() {
    // Client A logs in as "alice" on a fresh hub: join notice, then the
    // acknowledgement to A alone, then the roster snapshot.
    let mut hub = ChatServer::new();
    let join = hub.login_begin("alice", 1);
    assert_eq!(join, Some("{\"type\":\"JoinSystem\",\"text\":\"alice joined!\"}".to_string()));
    assert_eq!(hub.entries(), vec![("alice".to_string(), 1)]);
    let ack = hub.login_ack("alice");
    assert_eq!(ack, Some(("{\"type\":\"LoginSystem\",\"text\":\"alice\"}".to_string(), 1)));
    let roster = hub.chatters_message();
    assert_eq!(roster, "{\"type\":\"Chatters\",\"chatters\":[\"alice\"]}");
}

#[test]
fn chat_broadcast_exact_text() {
    let line = chat_text_at("alice", 9876543210, "hi");
    assert_eq!(
        line,
        "{\"type\":\"Message\",\"chatter\":\"alice\",\"time\":9876543210,\"text\":\"hi\"}"
    );
}

#[test]
fn chat_broadcast_plausible_time() {
    let (line, time) = chat_broadcast_text("alice", "hi");
    // a current epoch-millisecond value: after 2020, before 2100
    assert!(time > 1_577_836_800_000);
    assert!(time < 4_102_444_800_000);
    assert_eq!(line, chat_text_at("alice", time, "hi"));
}

#[test]
fn duplicate_login_rejected_silently() {
    // Client B attempts "alice" while A holds it: B gets nothing, the
    // registry still holds only A's entry, A is unaffected.
    let mut hub = ChatServer::new();
    assert!(hub.login_begin("alice", 1).is_some());
    let r = hub.login_begin("alice", 2);
    assert_eq!(r, None);
    assert_eq!(hub.len(), 1);
    assert_eq!(hub.entries(), vec![("alice".to_string(), 1)]);
    assert!(hub.contains_name("alice"));
    assert_eq!(hub.login_ack("alice").map(|p| p.1), Some(1));
}

#[test]
fn distinct_logins_all_land() {
    let mut hub = ChatServer::new();
    let names = ["a", "b", "c", "d", "e"];
    for (k, n) in names.iter().enumerate() {
        assert!(hub.login_begin(n, k as u64).is_some());
    }
    assert_eq!(hub.len(), 5);
    for n in names.iter() {
        assert!(hub.contains_name(n));
    }
}

#[test]
fn second_login_audiences() {
    // Bob joins after Alice: the join notice audience holds both entries,
    // the acknowledgement goes to Bob's connection alone, and the snapshot
    // names both.
    let mut hub = ChatServer::new();
    hub.login_begin("alice", 1);
    let join = hub.login_begin("bob", 2);
    assert_eq!(join, Some("{\"type\":\"JoinSystem\",\"text\":\"bob joined!\"}".to_string()));
    assert_eq!(hub.entries(), vec![("alice".to_string(), 1), ("bob".to_string(), 2)]);
    let ack = hub.login_ack("bob").unwrap();
    assert_eq!(ack.1, 2);
    assert_eq!(hub.chatters_message(), "{\"type\":\"Chatters\",\"chatters\":[\"alice\",\"bob\"]}");
}

#[test]
fn failed_delivery_evicts() {
    // A broadcast goes to the current entries; an entry whose delivery
    // failed is removed at once and only it.
    let mut hub = ChatServer::new();
    hub.login_begin("alice", 1);
    hub.login_begin("bob", 2);
    hub.login_begin("carol", 3);
    assert_eq!(hub.len(), 3);
    assert!(hub.remove("bob"));
    assert_eq!(hub.entries(), vec![("alice".to_string(), 1), ("carol".to_string(), 3)]);
    assert!(!hub.contains_name("bob"));
    assert!(!hub.remove("bob"));
    assert_eq!(hub.len(), 2);
    assert_eq!(hub.chatters_message(), "{\"type\":\"Chatters\",\"chatters\":[\"alice\",\"carol\"]}");
}

#[test]
fn ack_skipped_when_new_entry_already_evicted() {
    // The new client's own join delivery may fail; after its eviction the
    // acknowledgement has no target.
    let mut hub = ChatServer::new();
    assert!(hub.login_begin("alice", 1).is_some());
    assert!(hub.remove("alice"));
    assert_eq!(hub.login_ack("alice"), None);
    assert_eq!(hub.len(), 0);
    assert_eq!(hub.chatters_message(), "{\"type\":\"Chatters\",\"chatters\":[]}");
}

#[test]
fn freed_name_can_rejoin() {
    // No reservation after disconnect: a name frees immediately on removal.
    let mut hub = ChatServer::new();
    hub.login_begin("alice", 1);
    hub.remove("alice");
    assert!(hub.login_begin("alice", 7).is_some());
    assert_eq!(hub.entries(), vec![("alice".to_string(), 7)]);
}
