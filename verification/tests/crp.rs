use grand_cross::crp::{CrpEventType, CrpPacket, CRP_HEADER_LEN, CRP_VERSION};
use grand_cross::Platform;

#[test]
fn roundtrip_chat() {
    let pkt = CrpPacket {
        version: CRP_VERSION,
        platform: Platform::Minecraft,
        session_id: 0xDEADBEEFCAFEBABE,
        seq: 42,
        event_type: CrpEventType::Chat,
        payload: b"hello crossplay".to_vec(),
    };
    let encoded = pkt.encode();
    let decoded = CrpPacket::decode(&encoded).expect("decode failed");
    assert_eq!(decoded.platform, Platform::Minecraft);
    assert_eq!(decoded.session_id, 0xDEADBEEFCAFEBABE);
    assert_eq!(decoded.seq, 42);
    assert_eq!(decoded.payload, b"hello crossplay");
}

#[test]
fn rejects_bad_magic() {
    let mut buf = vec![0x00u8; CRP_HEADER_LEN + 4];
    assert!(CrpPacket::decode(&buf).is_none());
    buf[0] = 0xCB;
    buf[1] = 0x01;
    // still none: zero platform byte 0x00 is invalid
    assert!(CrpPacket::decode(&buf).is_none());
}

#[test]
fn encode_exact_bytes() {
    let pkt = CrpPacket {
        version: 1,
        platform: Platform::Hytale,
        session_id: 0x0102030405060708,
        seq: 0x0A0B0C0D,
        event_type: CrpEventType::SessionState,
        payload: vec![0xAA, 0xBB],
    };
    assert_eq!(
        pkt.encode(),
        vec![
            0xCB, 0x01, 0x01, 0x03, 0x08, 0x07, 0x06, 0x05, 0x04, 0x03, 0x02, 0x01, 0x0D, 0x0C, 0x0B, 0x0A,
            0x09, 0x02, 0x00, 0xAA, 0xBB
        ]
    );
}

#[test]
fn encode_empty_payload_is_header_only() {
    let pkt = CrpPacket {
        version: 1,
        platform: Platform::Roblox,
        session_id: 1,
        seq: 0,
        event_type: CrpEventType::Ping,
        payload: vec![],
    };
    let b = pkt.encode();
    assert_eq!(b.len(), CRP_HEADER_LEN);
    let d = CrpPacket::decode(&b).unwrap();
    assert_eq!(d.event_type, CrpEventType::Ping);
    assert!(d.payload.is_empty());
}

#[test]
fn decode_rejects_short_payload() {
    let pkt = CrpPacket {
        version: 1,
        platform: Platform::Roblox,
        session_id: 9,
        seq: 3,
        event_type: CrpEventType::Move,
        payload: vec![1, 2, 3, 4],
    };
    let b = pkt.encode();
    assert!(CrpPacket::decode(&b[..b.len() - 1]).is_none());
    assert!(CrpPacket::decode(&b[..CRP_HEADER_LEN - 1]).is_none());
}

#[test]
fn decode_ignores_trailing_bytes() {
    let pkt = CrpPacket {
        version: 7,
        platform: Platform::Minecraft,
        session_id: 5,
        seq: 6,
        event_type: CrpEventType::Action,
        payload: vec![9, 8],
    };
    let mut b = pkt.encode();
    b.extend_from_slice(&[0xFF, 0xFF, 0xFF]);
    let d = CrpPacket::decode(&b).unwrap();
    assert_eq!(d.version, 7);
    assert_eq!(d.payload, vec![9, 8]);
    assert_eq!(d.encode(), pkt.encode());
}

#[test]
fn decode_rejects_unknown_event_and_platform() {
    let pkt = CrpPacket {
        version: 1,
        platform: Platform::Roblox,
        session_id: 1,
        seq: 1,
        event_type: CrpEventType::Chat,
        payload: vec![],
    };
    let mut b = pkt.encode();
    b[16] = 0x0A;
    assert!(CrpPacket::decode(&b).is_none());
    b[16] = 0x00;
    assert!(CrpPacket::decode(&b).is_none());
    let mut c = pkt.encode();
    c[3] = 0x04;
    assert!(CrpPacket::decode(&c).is_none());
    let mut d = pkt.encode();
    d[1] = 0x02;
    assert!(CrpPacket::decode(&d).is_none());
}

#[test]
fn every_event_type_roundtrips() {
    let all = [
        CrpEventType::Move,
        CrpEventType::Chat,
        CrpEventType::Voice,
        CrpEventType::Join,
        CrpEventType::Leave,
        CrpEventType::Ping,
        CrpEventType::Pong,
        CrpEventType::Action,
        CrpEventType::SessionState,
    ];
    for (i, e) in all.iter().enumerate() {
        assert_eq!(e.to_byte(), (i + 1) as u8);
        assert_eq!(CrpEventType::from_byte((i + 1) as u8), Some(*e));
    }
    for p in [Platform::Roblox, Platform::Minecraft, Platform::Hytale] {
        assert_eq!(Platform::from_byte(p.to_byte()), Some(p));
    }
    assert_eq!(Platform::Minecraft.name(), "Minecraft");
}
