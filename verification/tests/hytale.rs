use grand_cross::crp::{CrpEventType, CrpPacket};
use grand_cross::hytale::{frame_len, frame_prefix, hytale_join, HytaleAdapter};
use grand_cross::Platform;

#[test]
fn frame_lengths() {
    assert_eq!(frame_len(&[0, 0]), None);
    assert_eq!(frame_len(&[1, 0]), Some(1));
    assert_eq!(frame_len(&[0xE8, 0xFD]), Some(65000));
    assert_eq!(frame_len(&[0xE9, 0xFD]), None);
    assert_eq!(frame_len(&[0xFF, 0xFF]), None);
    assert_eq!(frame_prefix(300), vec![0x2C, 0x01]);
    assert_eq!(frame_prefix(65536 + 2), vec![2, 0]);
    assert_eq!(frame_len(&frame_prefix(1234)), Some(1234));
}

#[test]
fn join_gives_player_id() {
    let pkt = CrpPacket {
        version: 1,
        platform: Platform::Hytale,
        session_id: 0,
        seq: 11,
        event_type: CrpEventType::Join,
        payload: br#"{"player_id":"hy"}"#.to_vec(),
    };
    let (_, pid) = hytale_join(pkt.clone()).unwrap();
    assert_eq!(pid, "hy");
    let anon = CrpPacket { payload: vec![], ..pkt.clone() };
    assert_eq!(hytale_join(anon).unwrap().1, "hytale_11");
    let chat = CrpPacket { event_type: CrpEventType::Chat, ..pkt };
    assert!(hytale_join(chat).is_none());
    assert_eq!(HytaleAdapter::new(9003).port, 9003);
}
