use grand_cross::crp::{CrpEventType, CrpPacket};
use grand_cross::roblox::{crp_to_roblox_json, parse_roblox_json, roblox_join, roblox_outbound, roblox_step, RobloxAdapter, WsMessage, WsStep};
use grand_cross::Platform;

#[test]
fn parses_roblox_message() {
    let p = parse_roblox_json(r#"{"session_id":9,"seq":4,"type":"chat","data":{"text":"yo"}}"#).unwrap();
    assert_eq!(p.version, 1);
    assert_eq!(p.platform, Platform::Roblox);
    assert_eq!(p.session_id, 9);
    assert_eq!(p.seq, 4);
    assert_eq!(p.event_type, CrpEventType::Chat);
    assert_eq!(p.payload, br#"{"text":"yo"}"#.to_vec());
}

#[test]
fn missing_data_becomes_null_and_seq_truncates() {
    let p = parse_roblox_json(r#"{"session_id":1,"seq":4294967297,"type":"ping"}"#).unwrap();
    assert_eq!(p.payload, b"null".to_vec());
    assert_eq!(p.seq, 1);
    assert_eq!(p.event_type, CrpEventType::Ping);
}

#[test]
fn rejects_bad_roblox_messages() {
    assert!(parse_roblox_json("nope").is_none());
    assert!(parse_roblox_json(r#"{"seq":1,"type":"chat"}"#).is_none());
    assert!(parse_roblox_json(r#"{"session_id":1,"type":"chat"}"#).is_none());
    assert!(parse_roblox_json(r#"{"session_id":1,"seq":1}"#).is_none());
    assert!(parse_roblox_json(r#"{"session_id":1,"seq":1,"type":"pong"}"#).is_none());
    assert!(parse_roblox_json(r#"{"session_id":-1,"seq":1,"type":"chat"}"#).is_none());
}

#[test]
fn encodes_roblox_json() {
    let pkt = CrpPacket {
        version: 1,
        platform: Platform::Minecraft,
        session_id: 7,
        seq: 42,
        event_type: CrpEventType::SessionState,
        payload: br#"{"b": 2, "a": [1, 2.5]}"#.to_vec(),
    };
    let text = String::from_utf8(crp_to_roblox_json(&pkt).unwrap()).unwrap();
    assert_eq!(
        text,
        r#"{"data":{"a":[1,2.5],"b":2},"platform":"Minecraft","seq":42,"session_id":7,"type":"session_state"}"#
    );
    let raw = CrpPacket { payload: b"\x00\x01".to_vec(), event_type: CrpEventType::Pong, ..pkt };
    let text = String::from_utf8(crp_to_roblox_json(&raw).unwrap()).unwrap();
    assert_eq!(text, r#"{"data":null,"platform":"Minecraft","seq":42,"session_id":7,"type":"pong"}"#);
}

#[test]
fn roblox_roundtrip_through_crp() {
    let p = parse_roblox_json(r#"{"session_id":3,"seq":8,"type":"move","data":{"x":1.5}}"#).unwrap();
    let out = roblox_outbound(&p.encode()).unwrap();
    assert_eq!(
        String::from_utf8(out).unwrap(),
        r#"{"data":{"x":1.5},"platform":"Roblox","seq":8,"session_id":3,"type":"move"}"#
    );
    assert!(roblox_outbound(b"\x00\x01").is_none());
}

#[test]
fn steps_per_message_kind() {
    assert!(matches!(
        roblox_step(WsMessage::Text(r#"{"session_id":1,"seq":2,"type":"leave"}"#.to_string())),
        WsStep::Forward(p) if p.event_type == CrpEventType::Leave
    ));
    assert!(matches!(roblox_step(WsMessage::Text("bad".to_string())), WsStep::Malformed(3)));
    let bin = CrpPacket {
        version: 1,
        platform: Platform::Hytale,
        session_id: 1,
        seq: 1,
        event_type: CrpEventType::Voice,
        payload: vec![1],
    }
    .encode();
    assert!(matches!(roblox_step(WsMessage::Binary(bin)), WsStep::Forward(p) if p.platform == Platform::Hytale));
    assert!(matches!(roblox_step(WsMessage::Binary(vec![1, 2])), WsStep::Ignore));
    assert!(matches!(roblox_step(WsMessage::Close), WsStep::Stop));
    assert!(matches!(roblox_step(WsMessage::Ping(vec![5])), WsStep::Pong(d) if d == vec![5]));
    assert!(matches!(roblox_step(WsMessage::Other), WsStep::Ignore));
}

#[test]
fn first_message_must_be_join() {
    let (p, pid) =
        roblox_join(WsMessage::Text(r#"{"session_id":0,"seq":6,"type":"join","data":{"player_id":"rb"}}"#.to_string()))
            .unwrap();
    assert_eq!(p.event_type, CrpEventType::Join);
    assert_eq!(pid, "rb");
    assert!(roblox_join(WsMessage::Text(r#"{"session_id":0,"seq":6,"type":"join"}"#.to_string())).is_none());
    assert!(roblox_join(WsMessage::Text(r#"{"session_id":0,"seq":6,"type":"join","data":{}}"#.to_string())).is_none());
    assert!(
        roblox_join(WsMessage::Text(r#"{"session_id":0,"seq":6,"type":"join","data":{"player_id":3}}"#.to_string()))
            .is_none()
    );
    assert!(roblox_join(WsMessage::Text(r#"{"session_id":0,"seq":6,"type":"chat"}"#.to_string())).is_none());
    assert!(roblox_join(WsMessage::Binary(vec![])).is_none());
    assert_eq!(RobloxAdapter::new(9001).port, 9001);
}

#[test]
fn float_data_survives_the_relay_unchanged() {
    let p = parse_roblox_json(
        r#"{"session_id":3,"seq":8,"type":"move","data":{"x":0.30000000000000004,"y":123456.789,"z":[2.2250738585072014e-308]}}"#,
    )
    .unwrap();
    let out = roblox_outbound(&p.encode()).unwrap();
    assert_eq!(
        String::from_utf8(out).unwrap(),
        r#"{"data":{"x":0.30000000000000004,"y":123456.789,"z":[2.2250738585072014e-308]},"platform":"Roblox","seq":8,"session_id":3,"type":"move"}"#
    );
}
