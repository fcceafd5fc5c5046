use grand_cross::crp::{CrpEventType, CrpPacket};
use grand_cross::router::{session_state_packet, Router};
use grand_cross::Platform;

fn chat(platform: Platform, session_id: u64) -> CrpPacket {
    CrpPacket {
        version: 1,
        platform,
        session_id,
        seq: 3,
        event_type: CrpEventType::Chat,
        payload: b"hi".to_vec(),
    }
}

#[test]
fn join_broadcasts_roster() {
    let mut r = Router::new();
    let mut a = r.join(7, Platform::Roblox);
    assert_eq!(a.session_id, 7);
    assert_eq!(a.platform, Platform::Roblox);
    let state = a.outbound.try_recv().unwrap();
    let pkt = CrpPacket::decode(&state).unwrap();
    assert_eq!(pkt.event_type, CrpEventType::SessionState);
    assert_eq!(pkt.seq, 0);
    assert_eq!(pkt.payload, br#"{"roster":["Roblox"],"session_id":7}"#.to_vec());
    let _b = r.join(7, Platform::Minecraft);
    let state2 = CrpPacket::decode(&a.outbound.try_recv().unwrap()).unwrap();
    assert_eq!(state2.payload, br#"{"roster":["Roblox","Minecraft"],"session_id":7}"#.to_vec());
    assert_eq!(r.session_count(), 1);
    assert_eq!(r.peer_count(), 2);
}

#[test]
fn route_skips_sender_platform() {
    let mut r = Router::default();
    let mut a = r.join(1, Platform::Roblox);
    let mut b = r.join(1, Platform::Minecraft);
    let mut c = r.join(1, Platform::Hytale);
    while a.outbound.try_recv().is_ok() {}
    while b.outbound.try_recv().is_ok() {}
    while c.outbound.try_recv().is_ok() {}
    let pkt = chat(Platform::Minecraft, 1);
    r.route(&pkt);
    assert_eq!(a.outbound.try_recv().unwrap().to_vec(), pkt.encode());
    assert!(b.outbound.try_recv().is_err());
    assert_eq!(c.outbound.try_recv().unwrap().to_vec(), pkt.encode());
}

#[test]
fn route_prunes_closed_peers() {
    let mut r = Router::new();
    let a = r.join(1, Platform::Roblox);
    let _b = r.join(1, Platform::Minecraft);
    drop(a);
    assert_eq!(r.peer_count(), 2);
    r.route(&chat(Platform::Minecraft, 1));
    assert_eq!(r.peer_count(), 1);
    assert_eq!(r.session_count(), 1);
}

#[test]
fn route_to_unknown_session_is_dropped() {
    let mut r = Router::new();
    r.route(&chat(Platform::Roblox, 99));
    assert_eq!(r.session_count(), 0);
}

#[test]
fn leave_removes_one_peer_and_empty_sessions() {
    let mut r = Router::new();
    let a = r.join(1, Platform::Roblox);
    let b = r.join(1, Platform::Minecraft);
    let c = r.join(2, Platform::Roblox);
    assert_eq!(r.peer_count(), 3);
    r.leave(1, a.peer_id);
    assert_eq!(r.peer_count(), 2);
    assert_eq!(r.session_count(), 2);
    r.leave(2, c.peer_id);
    assert_eq!(r.session_count(), 1);
    r.leave(1, b.peer_id);
    assert_eq!(r.session_count(), 0);
    assert_eq!(r.peer_count(), 0);
}

#[test]
fn leave_keeps_other_peers_of_the_same_platform() {
    let mut r = Router::new();
    let h1 = r.join(1, Platform::Roblox);
    let mut h2 = r.join(1, Platform::Roblox);
    assert_ne!(h1.peer_id, h2.peer_id);
    assert_eq!(r.peer_count(), 2);
    r.leave(1, h1.peer_id);
    assert_eq!(r.peer_count(), 1);
    assert_eq!(r.session_count(), 1);
    while h2.outbound.try_recv().is_ok() {}
    r.broadcast(1, bytes::Bytes::from_static(b"still here"));
    assert_eq!(&h2.outbound.try_recv().unwrap()[..], b"still here");
}

#[test]
fn leave_broadcasts_new_roster() {
    let mut r = Router::new();
    let h1 = r.join(1, Platform::Roblox);
    let mut h2 = r.join(1, Platform::Minecraft);
    while h2.outbound.try_recv().is_ok() {}
    r.leave(1, h1.peer_id);
    let state = CrpPacket::decode(&h2.outbound.try_recv().unwrap()).unwrap();
    assert_eq!(state.event_type, CrpEventType::SessionState);
    assert_eq!(state.session_id, 1);
    assert_eq!(state.payload, br#"{"roster":["Minecraft"],"session_id":1}"#.to_vec());
    // a peer that is not there: nothing changes and nothing is sent
    r.leave(1, h1.peer_id);
    assert!(h2.outbound.try_recv().is_err());
    assert_eq!(r.peer_count(), 1);
}

#[test]
fn join_gives_fresh_peer_ids() {
    let mut r = Router::new();
    assert!(r.can_join());
    let a = r.join(1, Platform::Roblox);
    let b = r.join(2, Platform::Roblox);
    let c = r.join(1, Platform::Hytale);
    assert_eq!(a.peer_id, 1);
    assert_eq!(b.peer_id, 2);
    assert_eq!(c.peer_id, 3);
}

#[test]
fn broadcast_reaches_everyone() {
    let mut r = Router::new();
    let mut a = r.join(4, Platform::Roblox);
    let mut b = r.join(4, Platform::Roblox);
    while a.outbound.try_recv().is_ok() {}
    while b.outbound.try_recv().is_ok() {}
    r.broadcast(4, bytes::Bytes::from_static(b"x"));
    assert_eq!(&a.outbound.try_recv().unwrap()[..], b"x");
    assert_eq!(&b.outbound.try_recv().unwrap()[..], b"x");
}

#[test]
fn session_state_packet_fields() {
    let p = session_state_packet(12, &vec![Platform::Hytale, Platform::Roblox]).unwrap();
    assert_eq!(p.platform, Platform::Roblox);
    assert_eq!(p.session_id, 12);
    assert_eq!(p.event_type, CrpEventType::SessionState);
    assert_eq!(p.payload, br#"{"roster":["Hytale","Roblox"],"session_id":12}"#.to_vec());
    let empty = session_state_packet(1, &vec![]).unwrap();
    assert_eq!(empty.payload, br#"{"roster":[],"session_id":1}"#.to_vec());
}

#[test]
fn retain_alive_keeps_flagged_peers() {
    let mut r = Router::new();
    let _a = r.join(1, Platform::Roblox);
    let _b = r.join(1, Platform::Minecraft);
    let _c = r.join(1, Platform::Hytale);
    r.retain_alive(1, &vec![true, false]);
    assert_eq!(r.peer_count(), 3);
    r.retain_alive(1, &vec![true, false, true]);
    assert_eq!(r.peer_count(), 2);
}

#[test]
fn leave_undoes_join() {
    let mut r = Router::new();
    let _a = r.join(1, Platform::Roblox);
    let _b = r.join(2, Platform::Hytale);
    let c = r.join(1, Platform::Minecraft);
    assert_eq!(r.peer_count(), 3);
    r.leave(1, c.peer_id);
    assert_eq!(r.peer_count(), 2);
    assert_eq!(r.session_count(), 2);
    let d = r.join(3, Platform::Roblox);
    r.leave(3, d.peer_id);
    assert_eq!(r.peer_count(), 2);
    assert_eq!(r.session_count(), 2);
}
