use kex_relay::clock::EXPIRY_WINDOW_MILLIS;
use kex_relay::exchange::{ExchangeError, ExchangeStore, KeyExchange, KeyExchangeStatus};

fn s(x: &str) -> String {
    x.to_string()
}

fn init_at(store: &mut ExchangeStore, a: &str, b: &str, now: i64) -> Result<KeyExchange, ExchangeError> {
    store.init_key_exchange_at(s(a), s(b), s("kx"), s("sigA"), now)
}

fn same_record(x: &KeyExchange, y: &KeyExchange) -> bool {
    x.initiator_falcon_pubkey == y.initiator_falcon_pubkey
        && x.responder_falcon_pubkey == y.responder_falcon_pubkey
        && x.initiator_kyber_pubkey == y.initiator_kyber_pubkey
        && x.initiator_signature == y.initiator_signature
        && x.responder_signature == y.responder_signature
        && x.encapsulated_secret == y.encapsulated_secret
        && x.status == y.status
        && x.created_at == y.created_at
        && x.paired_at == y.paired_at
        && x.completed_at == y.completed_at
}

#[test]
fn init_creates_initiated_record() {
    let mut store = ExchangeStore::new();
    let e = init_at(&mut store, "A", "B", 1_000).unwrap();
    assert_eq!(e.initiator_falcon_pubkey, "A");
    assert_eq!(e.responder_falcon_pubkey, "B");
    assert_eq!(e.initiator_kyber_pubkey, "kx");
    assert_eq!(e.initiator_signature, "sigA");
    assert_eq!(e.status, KeyExchangeStatus::Initiated);
    assert_eq!(e.created_at, 1_000);
    assert_eq!(e.responder_signature, None);
    assert_eq!(e.encapsulated_secret, None);
    assert_eq!(e.paired_at, None);
    assert_eq!(e.completed_at, None);
    let stored = store.get_exchange(&s("A"), &s("B")).unwrap();
    assert!(same_record(&e, &stored));
}

#[test]
fn pair_and_complete_set_their_fields() {
    let mut store = ExchangeStore::new();
    init_at(&mut store, "A", "B", 1_000).unwrap();
    let p = store.pair_exchange_at(&s("A"), &s("B"), s("secret"), s("sigB"), 2_000).unwrap();
    assert_eq!(p.status, KeyExchangeStatus::Paired);
    assert_eq!(p.responder_signature, Some(s("sigB")));
    assert_eq!(p.encapsulated_secret, Some(s("secret")));
    assert_eq!(p.paired_at, Some(2_000));
    assert_eq!(p.completed_at, None);
    let c = store.complete_exchange_at(&s("A"), &s("B"), 3_000).unwrap();
    assert_eq!(c.status, KeyExchangeStatus::Complete);
    assert_eq!(c.paired_at, Some(2_000));
    assert_eq!(c.completed_at, Some(3_000));
    assert_eq!(c.encapsulated_secret, Some(s("secret")));
}

#[test]
fn illegal_transitions_are_refused_without_change() {
    let mut store = ExchangeStore::new();
    init_at(&mut store, "A", "B", 1_000).unwrap();
    let before = store.get_exchange(&s("A"), &s("B")).unwrap();
    assert_eq!(
        store.complete_exchange_at(&s("A"), &s("B"), 1_500).unwrap_err(),
        ExchangeError::InvalidState(KeyExchangeStatus::Paired)
    );
    assert!(same_record(&before, &store.get_exchange(&s("A"), &s("B")).unwrap()));

    store.pair_exchange_at(&s("A"), &s("B"), s("secret"), s("sigB"), 2_000).unwrap();
    let paired = store.get_exchange(&s("A"), &s("B")).unwrap();
    assert_eq!(
        store.pair_exchange_at(&s("A"), &s("B"), s("other"), s("sig2"), 2_500).unwrap_err(),
        ExchangeError::InvalidState(KeyExchangeStatus::Initiated)
    );
    assert!(same_record(&paired, &store.get_exchange(&s("A"), &s("B")).unwrap()));

    store.complete_exchange_at(&s("A"), &s("B"), 3_000).unwrap();
    let done = store.get_exchange(&s("A"), &s("B")).unwrap();
    assert_eq!(
        store.pair_exchange_at(&s("A"), &s("B"), s("other"), s("sig2"), 3_500).unwrap_err(),
        ExchangeError::InvalidState(KeyExchangeStatus::Initiated)
    );
    assert_eq!(
        store.complete_exchange_at(&s("A"), &s("B"), 3_600).unwrap_err(),
        ExchangeError::InvalidState(KeyExchangeStatus::Paired)
    );
    assert!(same_record(&done, &store.get_exchange(&s("A"), &s("B")).unwrap()));
}

#[test]
fn unknown_pair_is_not_found() {
    let mut store = ExchangeStore::new();
    assert_eq!(
        store.pair_exchange_at(&s("A"), &s("B"), s("x"), s("y"), 1).unwrap_err(),
        ExchangeError::NotFound
    );
    assert_eq!(store.complete_exchange_at(&s("A"), &s("B"), 1).unwrap_err(), ExchangeError::NotFound);
    assert!(store.get_exchange(&s("A"), &s("B")).is_none());
}

#[test]
fn reinit_after_complete_conflicts() {
    let mut store = ExchangeStore::new();
    init_at(&mut store, "A", "B", 1_000).unwrap();
    store.pair_exchange_at(&s("A"), &s("B"), s("secret"), s("sigB"), 2_000).unwrap();
    store.complete_exchange_at(&s("A"), &s("B"), 3_000).unwrap();
    let done = store.get_exchange(&s("A"), &s("B")).unwrap();
    let r = store.init_key_exchange_at(s("A"), s("B"), s("kx2"), s("sig2"), 4_000);
    assert_eq!(r.unwrap_err(), ExchangeError::Conflict);
    assert!(same_record(&done, &store.get_exchange(&s("A"), &s("B")).unwrap()));
}

#[test]
fn reinit_while_initiated_overwrites() {
    let mut store = ExchangeStore::new();
    init_at(&mut store, "A", "B", 1_000).unwrap();
    let e = store.init_key_exchange_at(s("A"), s("B"), s("kx2"), s("sig2"), 4_000).unwrap();
    assert_eq!(e.initiator_kyber_pubkey, "kx2");
    let stored = store.get_exchange(&s("A"), &s("B")).unwrap();
    assert_eq!(stored.initiator_kyber_pubkey, "kx2");
    assert_eq!(stored.initiator_signature, "sig2");
    assert_eq!(stored.created_at, 4_000);
    assert_eq!(store.initiated_exchanges(&s("B")).len(), 1);
}

#[test]
fn reinit_while_paired_overwrites() {
    let mut store = ExchangeStore::new();
    init_at(&mut store, "A", "B", 1_000).unwrap();
    store.pair_exchange_at(&s("A"), &s("B"), s("secret"), s("sigB"), 2_000).unwrap();
    let e = store.init_key_exchange_at(s("A"), s("B"), s("kx2"), s("sig2"), 3_000).unwrap();
    assert_eq!(e.status, KeyExchangeStatus::Initiated);
    assert_eq!(e.responder_signature, None);
    assert!(store.paired_exchanges(&s("B")).is_empty());
}

#[test]
fn pair_key_is_directional() {
    let mut store = ExchangeStore::new();
    init_at(&mut store, "A", "B", 1_000).unwrap();
    init_at(&mut store, "B", "A", 1_100).unwrap();
    store.pair_exchange_at(&s("A"), &s("B"), s("secret"), s("sigB"), 2_000).unwrap();
    store.complete_exchange_at(&s("A"), &s("B"), 3_000).unwrap();
    let other = store.get_exchange(&s("B"), &s("A")).unwrap();
    assert_eq!(other.status, KeyExchangeStatus::Initiated);
    assert_eq!(other.created_at, 1_100);
    assert_eq!(other.paired_at, None);
    assert_eq!(
        store.get_exchange(&s("A"), &s("B")).unwrap().status,
        KeyExchangeStatus::Complete
    );
}

#[test]
fn ids_with_separator_do_not_collide() {
    let mut store = ExchangeStore::new();
    init_at(&mut store, "x:y", "z", 1_000).unwrap();
    init_at(&mut store, "x", "y:z", 1_000).unwrap();
    store.pair_exchange_at(&s("x:y"), &s("z"), s("secret"), s("sig"), 2_000).unwrap();
    assert_eq!(
        store.get_exchange(&s("x"), &s("y:z")).unwrap().status,
        KeyExchangeStatus::Initiated
    );
}

#[test]
fn second_pair_is_refused() {
    let mut store = ExchangeStore::new();
    init_at(&mut store, "A", "B", 1_000).unwrap();
    let first = store.pair_exchange_at(&s("A"), &s("B"), s("s1"), s("g1"), 2_000);
    let second = store.pair_exchange_at(&s("A"), &s("B"), s("s2"), s("g2"), 2_000);
    assert_eq!(first.unwrap().status, KeyExchangeStatus::Paired);
    assert_eq!(second.unwrap_err(), ExchangeError::InvalidState(KeyExchangeStatus::Initiated));
    let stored = store.get_exchange(&s("A"), &s("B")).unwrap();
    assert_eq!(stored.encapsulated_secret, Some(s("s1")));
    assert_eq!(stored.responder_signature, Some(s("g1")));
}

#[test]
fn expiry_boundary_is_inclusive() {
    let w = EXPIRY_WINDOW_MILLIS;
    let t = 10 * w;
    let mut store = ExchangeStore::new();
    init_at(&mut store, "A", "B", t - w).unwrap();
    init_at(&mut store, "C", "B", t - w + 1).unwrap();
    assert_eq!(store.sweep_expired_at(t, w), 1);
    assert!(store.get_exchange(&s("A"), &s("B")).is_none());
    assert_eq!(
        store.get_exchange(&s("C"), &s("B")).unwrap().status,
        KeyExchangeStatus::Initiated
    );
    assert_eq!(
        store.pair_exchange_at(&s("A"), &s("B"), s("x"), s("y"), t).unwrap_err(),
        ExchangeError::NotFound
    );
}

#[test]
fn answered_records_never_expire() {
    let w = EXPIRY_WINDOW_MILLIS;
    let mut store = ExchangeStore::new();
    init_at(&mut store, "A", "B", 0).unwrap();
    init_at(&mut store, "C", "B", 0).unwrap();
    init_at(&mut store, "D", "B", 0).unwrap();
    store.pair_exchange_at(&s("A"), &s("B"), s("x"), s("y"), 1).unwrap();
    store.pair_exchange_at(&s("C"), &s("B"), s("x"), s("y"), 1).unwrap();
    store.complete_exchange_at(&s("C"), &s("B"), 2).unwrap();
    assert_eq!(store.sweep_expired_at(100 * w, w), 1);
    assert!(store.get_exchange(&s("A"), &s("B")).is_some());
    assert!(store.get_exchange(&s("C"), &s("B")).is_some());
    assert!(store.get_exchange(&s("D"), &s("B")).is_none());
    assert_eq!(store.sweep_expired_at(100 * w, w), 0);
}

#[test]
fn expiry_window_is_one_day() {
    assert_eq!(EXPIRY_WINDOW_MILLIS, 86_400_000);
}

#[test]
fn sweep_on_extreme_times_does_not_overflow() {
    let mut store = ExchangeStore::new();
    init_at(&mut store, "A", "B", i64::MIN).unwrap();
    assert_eq!(store.sweep_expired_at(i64::MIN, i64::MAX), 0);
    assert_eq!(store.sweep_expired_at(i64::MAX, 0), 1);
    assert_eq!(store.sweep_expired_at(i64::MAX, i64::MIN), 0);
}

#[test]
fn store_clock_never_runs_backwards() {
    let mut store = ExchangeStore::new();
    init_at(&mut store, "A", "B", 5_000).unwrap();
    let p = store.pair_exchange_at(&s("A"), &s("B"), s("x"), s("y"), 100).unwrap();
    assert_eq!(p.paired_at, Some(5_000));
    let c = store.complete_exchange_at(&s("A"), &s("B"), 50).unwrap();
    assert_eq!(c.completed_at, Some(5_000));
    let e = init_at(&mut store, "C", "D", 7_000).unwrap();
    assert_eq!(e.created_at, 7_000);
}

#[test]
fn listing_filters_by_responder_and_status() {
    let mut store = ExchangeStore::new();
    init_at(&mut store, "A", "B", 1).unwrap();
    init_at(&mut store, "C", "B", 1).unwrap();
    init_at(&mut store, "D", "E", 1).unwrap();
    store.pair_exchange_at(&s("C"), &s("B"), s("x"), s("y"), 2).unwrap();
    let initiated = store.initiated_exchanges(&s("B"));
    assert_eq!(initiated.len(), 1);
    assert_eq!(initiated[0].0.initiator, "A");
    assert_eq!(initiated[0].0.responder, "B");
    assert_eq!(initiated[0].1.initiator_falcon_pubkey, "A");
    let paired = store.paired_exchanges(&s("B"));
    assert_eq!(paired.len(), 1);
    assert_eq!(paired[0].0.initiator, "C");
    assert!(store.completed_exchanges(&s("B")).is_empty());
    assert!(store.initiated_exchanges(&s("Z")).is_empty());
    let mut listed: Vec<String> = store
        .list_by_responder_and_status(&s("E"), KeyExchangeStatus::Initiated)
        .into_iter()
        .map(|(id, _)| id.initiator)
        .collect();
    listed.sort();
    assert_eq!(listed, vec![s("D")]);
}

#[test]
fn end_to_end_with_wall_clock() {
    let mut store = ExchangeStore::new();
    let e = store.init_key_exchange(s("A"), s("B"), s("kx"), s("sigA")).unwrap();
    assert_eq!(e.status, KeyExchangeStatus::Initiated);
    assert!(e.created_at > 1_600_000_000_000);
    let listed = store.initiated_exchanges(&s("B"));
    assert_eq!(listed.len(), 1);
    assert_eq!(listed[0].0.initiator, "A");
    let p = store.pair_exchange(&s("A"), &s("B"), s("secret"), s("sigB")).unwrap();
    assert_eq!(p.status, KeyExchangeStatus::Paired);
    assert!(p.paired_at.is_some());
    assert!(store.initiated_exchanges(&s("B")).is_empty());
    assert_eq!(store.paired_exchanges(&s("B")).len(), 1);
    let c = store.complete_exchange(&s("A"), &s("B")).unwrap();
    assert_eq!(c.status, KeyExchangeStatus::Complete);
    let paired_at = c.paired_at.unwrap();
    let completed_at = c.completed_at.unwrap();
    assert!(completed_at >= paired_at);
    assert!(paired_at >= c.created_at);
    assert_eq!(store.completed_exchanges(&s("B")).len(), 1);
}

#[test]
fn cleanup_keeps_fresh_handshakes() {
    let mut store = ExchangeStore::new();
    init_at(&mut store, "C", "B", 0).unwrap();
    store.init_key_exchange(s("A"), s("B"), s("kx"), s("sigA")).unwrap();
    assert_eq!(store.cleanup_expired_exchanges(), 1);
    assert!(store.get_exchange(&s("A"), &s("B")).is_some());
    assert!(store.get_exchange(&s("C"), &s("B")).is_none());
}
