use std::sync::{Arc, Mutex};
use tokio::sync::mpsc::error::TryRecvError;
use ws_hub::channel::{Payload, ReceiveHandle};
use ws_hub::registry::{Delivery, Registry};

fn text(s: &str) -> Payload {
    Payload::Text(s.to_string())
}

fn recipients(report: &[Delivery]) -> Vec<u128> {
    report.iter().map(|d| d.to).collect()
}

#[test]
fn new_registry_is_empty() {
    let r = Registry::new();
    assert_eq!(r.len(), 0);
    assert!(!r.contains(0));
}

#[test]
fn registrations_get_distinct_identities() {
    let mut r = Registry::new();
    let mut ids = Vec::new();
    let mut keep: Vec<ReceiveHandle> = Vec::new();
    for _ in 0..50 {
        let (id, rx) = r.register();
        assert!(!ids.contains(&id));
        ids.push(id);
        keep.push(rx);
    }
    assert_eq!(r.len(), 50);
    for id in &ids {
        assert!(r.contains(*id));
    }
    r.deregister(ids[3]);
    r.deregister(ids[7]);
    assert_eq!(r.len(), 48);
    assert!(!r.contains(ids[3]));
    assert!(r.contains(ids[4]));
}

#[test]
fn broadcast_reaches_each_peer_once_and_not_the_sender() {
    let mut r = Registry::new();
    let (s, mut srx) = r.register();
    let (a, mut arx) = r.register();
    let (b, mut brx) = r.register();
    let (c, mut crx) = r.register();
    let report = r.broadcast(s, &text("p"));
    assert_eq!(recipients(&report), vec![a, b, c]);
    assert!(report.iter().all(|d| d.accepted));
    for rx in [&mut arx, &mut brx, &mut crx] {
        assert_eq!(rx.try_recv().unwrap(), text("p"));
        assert_eq!(rx.try_recv(), Err(TryRecvError::Empty));
    }
    assert_eq!(srx.try_recv(), Err(TryRecvError::Empty));
}

#[test]
fn deregister_twice_or_unknown_changes_nothing() {
    let mut r = Registry::new();
    let (a, _arx) = r.register();
    let (b, _brx) = r.register();
    let unknown = if a == 1 || b == 1 { 2 } else { 1 };
    r.deregister(unknown);
    assert_eq!(r.len(), 2);
    r.deregister(a);
    assert_eq!(r.len(), 1);
    r.deregister(a);
    assert_eq!(r.len(), 1);
    assert!(r.contains(b));
    assert!(!r.contains(a));
}

#[test]
fn closed_recipient_does_not_stop_fan_out() {
    let mut r = Registry::new();
    let (s, _srx) = r.register();
    let (a, arx) = r.register();
    let (b, mut brx) = r.register();
    drop(arx);
    let report = r.broadcast(s, &Payload::Binary(vec![9]));
    assert_eq!(
        report,
        vec![Delivery { to: a, accepted: false }, Delivery { to: b, accepted: true }]
    );
    assert_eq!(brx.try_recv().unwrap(), Payload::Binary(vec![9]));
    assert_eq!(r.len(), 3);
    assert!(r.contains(a));
}

#[test]
fn one_sender_is_received_in_order() {
    let mut r = Registry::new();
    let (s, _srx) = r.register();
    let (t, _trx) = r.register();
    let (_a, mut arx) = r.register();
    r.broadcast(s, &text("first"));
    r.broadcast(t, &text("other"));
    r.broadcast(s, &text("second"));
    assert_eq!(arx.try_recv().unwrap(), text("first"));
    assert_eq!(arx.try_recv().unwrap(), text("other"));
    assert_eq!(arx.try_recv().unwrap(), text("second"));
}

#[test]
fn two_clients_hello_then_world() {
    let mut r = Registry::new();
    let (a, mut arx) = r.register();
    let (b, mut brx) = r.register();
    let report = r.broadcast(a, &text("hello"));
    assert_eq!(report, vec![Delivery { to: b, accepted: true }]);
    assert_eq!(brx.try_recv().unwrap(), text("hello"));
    assert_eq!(brx.try_recv(), Err(TryRecvError::Empty));
    assert_eq!(arx.try_recv(), Err(TryRecvError::Empty));
    r.deregister(b);
    let report = r.broadcast(a, &text("world"));
    assert!(report.is_empty());
    assert_eq!(brx.try_recv(), Err(TryRecvError::Disconnected));
    assert_eq!(arx.try_recv(), Err(TryRecvError::Empty));
}

#[test]
fn lone_client_binary_has_no_recipients() {
    let mut r = Registry::new();
    let (a, mut arx) = r.register();
    let report = r.broadcast(a, &Payload::Binary(vec![0x01, 0x02]));
    assert!(report.is_empty());
    assert_eq!(arx.try_recv(), Err(TryRecvError::Empty));
    assert_eq!(r.len(), 1);
}

#[test]
fn broadcast_from_unregistered_sender_reaches_all() {
    let mut r = Registry::new();
    let (a, _arx) = r.register();
    let (b, _brx) = r.register();
    let outsider = if a == 5 || b == 5 { 6 } else { 5 };
    let report = r.broadcast(outsider, &text("x"));
    assert_eq!(recipients(&report), vec![a, b]);
}

#[test]
fn duplicate_keeps_contents() {
    let p = Payload::Binary(vec![1, 2, 3]);
    assert_eq!(p.duplicate(), p);
    let q = text("héllo");
    assert_eq!(q.duplicate(), q);
}

#[test]
fn concurrent_registrations_stay_distinct() {
    let shared = Arc::new(Mutex::new(Registry::new()));
    let runtime = tokio::runtime::Runtime::new().unwrap();
    let ids: Vec<u128> = runtime.block_on(async {
        let mut tasks = Vec::new();
        for _ in 0..32 {
            let shared = Arc::clone(&shared);
            tasks.push(tokio::spawn(async move {
                let (id, rx) = shared.lock().unwrap().register();
                drop(rx);
                id
            }));
        }
        let mut ids = Vec::new();
        for task in tasks {
            ids.push(task.await.unwrap());
        }
        ids
    });
    let mut sorted = ids.clone();
    sorted.sort();
    sorted.dedup();
    assert_eq!(sorted.len(), 32);
    let mut registry = shared.lock().unwrap();
    assert_eq!(registry.len(), 32);
    for id in &ids[..10] {
        registry.deregister(*id);
    }
    assert_eq!(registry.len(), 22);
}
