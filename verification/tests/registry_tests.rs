use codercar::registry::{PeerRegistry, RegistryError};
use futures_channel::mpsc::{unbounded, UnboundedReceiver};

fn recv_now(rx: &mut UnboundedReceiver<String>) -> Option<String> {
    match rx.try_next() {
        Ok(Some(msg)) => Some(msg),
        _ => None,
    }
}

#[test]
fn insert_then_contains() {
    let mut reg = PeerRegistry::new();
    let (tx, _rx) = unbounded();
    assert_eq!(reg.insert(7, tx), Ok(()));
    assert!(reg.contains_id(7));
    assert!(!reg.contains_id(8));
    assert_eq!(reg.peer_count(), 1);
}

#[test]
fn duplicate_identity_is_rejected() {
    let mut reg = PeerRegistry::new();
    let (tx1, _rx1) = unbounded();
    let (tx2, _rx2) = unbounded();
    assert_eq!(reg.insert(7, tx1), Ok(()));
    assert_eq!(reg.insert(7, tx2), Err(RegistryError::DuplicateIdentity));
    assert_eq!(reg.peer_count(), 1);
}

#[test]
fn remove_is_idempotent() {
    let mut reg = PeerRegistry::new();
    let (tx, _rx) = unbounded();
    reg.insert(7, tx).unwrap();
    reg.remove(9);
    assert_eq!(reg.peer_count(), 1);
    reg.remove(7);
    assert_eq!(reg.peer_count(), 0);
    reg.remove(7);
    assert_eq!(reg.peer_count(), 0);
}

#[test]
fn broadcast_reaches_all_but_sender() {
    let mut reg = PeerRegistry::new();
    let (tx_x, mut rx_x) = unbounded();
    let (tx_y, mut rx_y) = unbounded();
    let (tx_z, mut rx_z) = unbounded();
    reg.insert(1, tx_x).unwrap();
    reg.insert(2, tx_y).unwrap();
    reg.insert(3, tx_z).unwrap();

    let payload = String::from("[{\"id\":\"pad\",\"axes\":[\"0.00\",\"-1.00\"],\"buttons\":[]}]");
    let attempts = reg.broadcast(1, &payload);
    assert_eq!(attempts, vec![(2, true), (3, true)]);

    // Y and Z receive exactly that payload exactly once; X receives nothing.
    assert_eq!(recv_now(&mut rx_y), Some(payload.clone()));
    assert_eq!(recv_now(&mut rx_y), None);
    assert_eq!(recv_now(&mut rx_z), Some(payload.clone()));
    assert_eq!(recv_now(&mut rx_z), None);
    assert_eq!(recv_now(&mut rx_x), None);
}

#[test]
fn failed_sink_does_not_stop_delivery() {
    let mut reg = PeerRegistry::new();
    let (tx_x, _rx_x) = unbounded();
    let (tx_y, rx_y) = unbounded();
    let (tx_z, mut rx_z) = unbounded();
    reg.insert(1, tx_x).unwrap();
    reg.insert(2, tx_y).unwrap();
    reg.insert(3, tx_z).unwrap();

    // Peer Y disconnects: its receiving half is gone before the broadcast.
    drop(rx_y);

    let payload = String::from("frame");
    let attempts = reg.broadcast(1, &payload);
    assert_eq!(attempts, vec![(2, false), (3, true)]);
    assert_eq!(recv_now(&mut rx_z), Some(payload));

    // The failed peer is scheduled for removal; the others stay.
    reg.purge_failed(&attempts);
    assert!(reg.contains_id(1));
    assert!(!reg.contains_id(2));
    assert!(reg.contains_id(3));
}

#[test]
fn broadcast_to_empty_registry_attempts_nothing() {
    let reg = PeerRegistry::new();
    let attempts = reg.broadcast(1, &String::from("frame"));
    assert!(attempts.is_empty());
}

#[test]
fn purge_keeps_successful_peers() {
    let mut reg = PeerRegistry::new();
    let (tx_a, _rx_a) = unbounded();
    let (tx_b, _rx_b) = unbounded();
    reg.insert(10, tx_a).unwrap();
    reg.insert(11, tx_b).unwrap();
    reg.purge_failed(&vec![(10, true), (11, true)]);
    assert_eq!(reg.peer_count(), 2);
}
