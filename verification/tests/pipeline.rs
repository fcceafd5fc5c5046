use grand_cross::pipeline::VoicePipeline;
use grand_cross::VoiceFrame;

fn frame(player: &str, seq: u32) -> VoiceFrame {
    VoiceFrame { player_id: player.to_string(), opus_bytes: vec![1, 2], duration_ms: 20, muted: false, vad_active: false, seq }
}

#[test]
fn silent_frames_are_not_forwarded() {
    let (tx, _rx) = tokio::sync::mpsc::channel(4);
    let mut p = VoicePipeline::new(tx);
    assert!(p.ingest(frame("a", 0), true).is_none());
    let out = p.ingest(frame("a", 1), false).unwrap();
    assert!(out.vad_active);
    assert!(!out.muted);
    assert_eq!(out.seq, 1);
    assert_eq!(out.opus_bytes, vec![1, 2]);
    // hangover lets the next quiet frame through
    assert!(p.ingest(frame("a", 2), true).is_some());
}

#[test]
fn mute_windows_are_per_player() {
    let (tx, _rx) = tokio::sync::mpsc::channel(4);
    let mut p = VoicePipeline::new(tx);
    p.mute_player_window("a", 10, 20);
    let a = p.ingest(frame("a", 15), false).unwrap();
    assert!(a.muted);
    assert!(a.vad_active);
    let b = p.ingest(frame("b", 15), false).unwrap();
    assert!(!b.muted);
    // b's loud frame does not give a a hangover
    assert!(p.ingest(frame("c", 1), true).is_none());
}
