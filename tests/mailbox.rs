use kex_relay::mailbox::{Message, MessageStore};

fn s(x: &str) -> String {
    x.to_string()
}

fn texts(ms: &[Message]) -> Vec<String> {
    ms.iter().map(|m| m.ciphertext.clone()).collect()
}

#[test]
fn stored_messages_come_back_in_order() {
    let mut store = MessageStore::new();
    store.store_message_at(s("A"), s("B"), s("m1"), 10);
    store.store_message_at(s("C"), s("B"), s("m2"), 20);
    store.store_message_at(s("A"), s("B"), s("m3"), 30);
    let got = store.get_messages(&s("B"));
    assert_eq!(texts(&got), vec![s("m1"), s("m2"), s("m3")]);
    assert_eq!(got[1].from_pubkey, "C");
    assert_eq!(got[1].to_pubkey, "B");
    assert_eq!(got[1].timestamp, 20);
}

#[test]
fn mailboxes_are_isolated() {
    let mut store = MessageStore::new();
    store.store_message_at(s("A"), s("B"), s("for-b"), 1);
    store.store_message_at(s("A"), s("D"), s("for-d"), 2);
    store.store_message_at(s("B"), s("A"), s("for-a"), 3);
    assert_eq!(texts(&store.get_messages(&s("B"))), vec![s("for-b")]);
    assert_eq!(texts(&store.get_messages(&s("D"))), vec![s("for-d")]);
    assert_eq!(texts(&store.get_messages(&s("A"))), vec![s("for-a")]);
}

#[test]
fn unknown_recipient_has_empty_mailbox() {
    let mut store = MessageStore::new();
    assert!(store.get_messages(&s("nobody")).is_empty());
    store.store_message_at(s("A"), s("B"), s("m"), 1);
    assert!(store.get_messages(&s("nobody")).is_empty());
}

#[test]
fn message_timestamps_never_decrease() {
    let mut store = MessageStore::new();
    let first = store.store_message_at(s("A"), s("B"), s("m1"), 500);
    let second = store.store_message_at(s("A"), s("B"), s("m2"), 100);
    assert_eq!(first.timestamp, 500);
    assert_eq!(second.timestamp, 500);
}

#[test]
fn store_message_uses_wall_clock() {
    let mut store = MessageStore::new();
    let m = store.store_message(s("A"), s("B"), s("ct"));
    assert!(m.timestamp > 1_600_000_000_000);
    assert_eq!(m.ciphertext, "ct");
    let got = store.get_messages(&s("B"));
    assert_eq!(got.len(), 1);
    assert_eq!(got[0].timestamp, m.timestamp);
}
