use grand_cross::crp::{CrpEventType, CrpPacket};
use grand_cross::dispatch::{
    dispatch_action, extract_player_id, fallback_player_id, handle_join, handle_leave, parse_join_payload,
    player_id_or, DispatchAction, JoinOutcome,
};
use grand_cross::peer_registry::PeerRegistry;
use grand_cross::router::Router;
use grand_cross::session_manager::SessionManager;
use grand_cross::Platform;

fn packet(event_type: CrpEventType, seq: u32, payload: &[u8]) -> CrpPacket {
    CrpPacket { version: 1, platform: Platform::Hytale, session_id: 0, seq, event_type, payload: payload.to_vec() }
}

#[test]
fn actions_by_event_type() {
    assert_eq!(dispatch_action(CrpEventType::Join), DispatchAction::Join);
    assert_eq!(dispatch_action(CrpEventType::Leave), DispatchAction::Leave);
    assert_eq!(dispatch_action(CrpEventType::Ping), DispatchAction::Ping);
    assert_eq!(dispatch_action(CrpEventType::Chat), DispatchAction::Route);
    assert_eq!(dispatch_action(CrpEventType::Pong), DispatchAction::Route);
    assert_eq!(dispatch_action(CrpEventType::SessionState), DispatchAction::Route);
}

#[test]
fn join_payload_fields() {
    assert_eq!(
        parse_join_payload(br#"{"player_id":"ann","invite_session_id":12}"#),
        Some(("ann".to_string(), Some(12)))
    );
    assert_eq!(parse_join_payload(br#"{"player_id":"ann"}"#), Some(("ann".to_string(), None)));
    assert_eq!(parse_join_payload(br#"{"player_id":"ann","invite_session_id":-3}"#), Some(("ann".to_string(), None)));
    assert_eq!(parse_join_payload(br#"{"player_id":"ann","invite_session_id":"5"}"#), Some(("ann".to_string(), None)));
    assert_eq!(parse_join_payload(br#"{"player_id":5}"#), None);
    assert_eq!(parse_join_payload(b"not json"), None);
    assert_eq!(parse_join_payload(br#"["player_id"]"#), None);
}

#[test]
fn player_ids_and_fallbacks() {
    assert_eq!(extract_player_id(br#"{"player_id":"zed","x":1}"#), Some("zed".to_string()));
    assert_eq!(extract_player_id(br#"{"x":1}"#), None);
    assert_eq!(fallback_player_id("unknown_", 0), "unknown_0");
    assert_eq!(fallback_player_id("hytale_", 4294967295), "hytale_4294967295");
    assert_eq!(fallback_player_id("roblox_", 1020), "roblox_1020");
    assert_eq!(player_id_or(b"", "roblox_", 7), "roblox_7");
    assert_eq!(player_id_or(br#"{"player_id":"q"}"#, "roblox_", 7), "q");
}

#[test]
fn join_then_duplicate_then_leave() {
    let mut router = Router::new();
    let mut sessions = SessionManager::new();
    let mut peers = PeerRegistry::new();
    let pkt = packet(CrpEventType::Join, 1, br#"{"player_id":"ann"}"#);
    match handle_join(&pkt, Platform::Hytale, &mut router, &mut sessions, &mut peers) {
        JoinOutcome::Admitted { player_id, session_id, handle } => {
            assert_eq!(player_id, "ann");
            assert_eq!(session_id, 1);
            assert_eq!(handle.session_id, 1);
            assert_eq!(handle.platform, Platform::Hytale);
        }
        _ => panic!("expected admission"),
    }
    assert_eq!(peers.session_id_for("ann"), Some(1));
    assert_eq!(router.peer_count(), 1);
    match handle_join(&pkt, Platform::Hytale, &mut router, &mut sessions, &mut peers) {
        JoinOutcome::Duplicate(p) => assert_eq!(p, "ann"),
        _ => panic!("expected duplicate"),
    }
    assert_eq!(router.peer_count(), 1);
    let leave = packet(CrpEventType::Leave, 2, br#"{"player_id":"ann"}"#);
    assert_eq!(handle_leave(&leave, &mut router, &mut sessions, &mut peers), "ann");
    assert!(!peers.contains("ann"));
    assert_eq!(peers.peer_id_for("ann"), None);
    assert_eq!(router.peer_count(), 0);
    assert_eq!(router.session_count(), 0);
    assert_eq!(sessions.session_id_for("ann"), None);
    assert_eq!(sessions.active_sessions(), 0);
}

#[test]
fn malformed_join_uses_unknown_id() {
    let mut router = Router::new();
    let mut sessions = SessionManager::new();
    let mut peers = PeerRegistry::new();
    let pkt = packet(CrpEventType::Join, 33, b"???");
    match handle_join(&pkt, Platform::Roblox, &mut router, &mut sessions, &mut peers) {
        JoinOutcome::Admitted { player_id, .. } => assert_eq!(player_id, "unknown_33"),
        _ => panic!("expected admission"),
    }
    assert!(peers.contains("unknown_33"));
    let leave = packet(CrpEventType::Leave, 33, b"");
    assert_eq!(handle_leave(&leave, &mut router, &mut sessions, &mut peers), "unknown_33");
    assert_eq!(router.peer_count(), 0);
    assert!(!peers.contains("unknown_33"));
}

#[test]
fn join_into_full_session_is_refused() {
    let mut router = Router::new();
    let mut sessions = SessionManager::new();
    let mut peers = PeerRegistry::new();
    let first = packet(CrpEventType::Join, 0, br#"{"player_id":"p0"}"#);
    assert!(matches!(
        handle_join(&first, Platform::Roblox, &mut router, &mut sessions, &mut peers),
        JoinOutcome::Admitted { session_id: 1, .. }
    ));
    for i in 1..9 {
        let payload = format!(r#"{{"player_id":"p{}","invite_session_id":1}}"#, i);
        let pkt = packet(CrpEventType::Join, i, payload.as_bytes());
        assert!(matches!(
            handle_join(&pkt, Platform::Roblox, &mut router, &mut sessions, &mut peers),
            JoinOutcome::Admitted { session_id: 1, .. }
        ));
    }
    let pkt = packet(CrpEventType::Join, 9, br#"{"player_id":"p9","invite_session_id":1}"#);
    match handle_join(&pkt, Platform::Roblox, &mut router, &mut sessions, &mut peers) {
        JoinOutcome::SessionFull(p) => assert_eq!(p, "p9"),
        _ => panic!("expected refusal"),
    }
    assert!(!peers.contains("p9"));
}

#[test]
fn leave_drops_the_players_peer_and_tells_the_rest() {
    let mut router = Router::new();
    let mut sessions = SessionManager::new();
    let mut peers = PeerRegistry::new();
    let ann = packet(CrpEventType::Join, 1, br#"{"player_id":"ann"}"#);
    let mut ann_handle = match handle_join(&ann, Platform::Roblox, &mut router, &mut sessions, &mut peers) {
        JoinOutcome::Admitted { handle, .. } => handle,
        _ => panic!("expected admission"),
    };
    let bob = packet(CrpEventType::Join, 2, br#"{"player_id":"bob","invite_session_id":1}"#);
    let mut bob_handle = match handle_join(&bob, Platform::Roblox, &mut router, &mut sessions, &mut peers) {
        JoinOutcome::Admitted { handle, .. } => handle,
        _ => panic!("expected admission"),
    };
    assert_eq!(peers.peer_id_for("ann"), Some(ann_handle.peer_id));
    assert_eq!(peers.peer_id_for("bob"), Some(bob_handle.peer_id));
    assert_eq!(router.peer_count(), 2);
    while bob_handle.outbound.try_recv().is_ok() {}
    let leave = packet(CrpEventType::Leave, 3, br#"{"player_id":"ann"}"#);
    assert_eq!(handle_leave(&leave, &mut router, &mut sessions, &mut peers), "ann");
    assert_eq!(router.peer_count(), 1);
    let roster = CrpPacket::decode(&bob_handle.outbound.try_recv().unwrap()).unwrap();
    assert_eq!(roster.payload, br#"{"roster":["Roblox"],"session_id":1}"#.to_vec());
    // ann's channel is closed once what was queued is drained
    while ann_handle.outbound.try_recv().is_ok() {}
    assert!(ann_handle.outbound.try_recv().is_err());
    let mut chat = packet(CrpEventType::Chat, 4, b"hi");
    chat.platform = Platform::Minecraft;
    chat.session_id = 1;
    router.route(&chat);
    assert_eq!(bob_handle.outbound.try_recv().unwrap().to_vec(), chat.encode());
}

#[test]
fn join_into_unknown_session_is_refused() {
    let mut router = Router::new();
    let mut sessions = SessionManager::new();
    let mut peers = PeerRegistry::new();
    let pkt = packet(CrpEventType::Join, 1, br#"{"player_id":"zoe","invite_session_id":8}"#);
    match handle_join(&pkt, Platform::Hytale, &mut router, &mut sessions, &mut peers) {
        JoinOutcome::SessionNotFound(p) => assert_eq!(p, "zoe"),
        _ => panic!("expected refusal"),
    }
    assert!(!peers.contains("zoe"));
    assert_eq!(router.session_count(), 0);
    assert_eq!(sessions.active_sessions(), 0);
}
