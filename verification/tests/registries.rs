use bytes::Bytes;
use grand_cross::peer_registry::PeerRegistry;
use grand_cross::ConnectionRegistry;

#[test]
fn peer_registry_records_sessions() {
    let mut r = PeerRegistry::default();
    assert!(!r.contains("a"));
    r.insert_id("a".to_string(), 4);
    assert!(r.contains("a"));
    assert_eq!(r.session_id_for("a"), Some(4));
    r.insert_id("a".to_string(), 5);
    assert_eq!(r.session_id_for("a"), Some(5));
    r.remove("a");
    assert_eq!(r.session_id_for("a"), None);
}

#[test]
fn connection_registry_sends_and_prunes() {
    let mut reg = ConnectionRegistry::new();
    let (tx_a, mut rx_a) = tokio::sync::mpsc::unbounded_channel::<Bytes>();
    let (tx_b, rx_b) = tokio::sync::mpsc::unbounded_channel::<Bytes>();
    reg.register("a".to_string(), tx_a);
    reg.register("b".to_string(), tx_b);
    assert!(reg.send_to("a", Bytes::from_static(b"1")));
    assert_eq!(&rx_a.try_recv().unwrap()[..], b"1");
    assert!(!reg.send_to("nobody", Bytes::from_static(b"1")));
    drop(rx_b);
    assert!(!reg.send_to("b", Bytes::from_static(b"2")));
    reg.broadcast(Bytes::from_static(b"3"));
    assert_eq!(&rx_a.try_recv().unwrap()[..], b"3");
    assert!(!reg.send_to("b", Bytes::from_static(b"4")));
    reg.deregister("a");
    assert!(!reg.send_to("a", Bytes::from_static(b"5")));
}

#[test]
fn peer_registry_records_peer_ids() {
    let mut r = PeerRegistry::new();
    assert_eq!(r.peer_id_for("a"), None);
    r.insert_id("a".to_string(), 4);
    r.insert_peer_id("a".to_string(), 17);
    assert_eq!(r.peer_id_for("a"), Some(17));
    assert_eq!(r.session_id_for("a"), Some(4));
    r.remove("a");
    assert_eq!(r.peer_id_for("a"), None);
    assert!(!r.contains("a"));
}
