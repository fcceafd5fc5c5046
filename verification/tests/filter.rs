use grand_cross::filter::VoiceFilter;
use grand_cross::FilterDecision;

/// Root mean square energy of a PCM frame, and whether it is below the noise
/// gate threshold the relay uses.
fn below_gate(samples: &[f32]) -> bool {
    let energy = if samples.is_empty() {
        0.0
    } else {
        (samples.iter().map(|s| s * s).sum::<f32>() / samples.len() as f32).sqrt()
    };
    energy < 0.001
}

#[test]
fn silence_drops() {
    let mut f = VoiceFilter::new();
    let silence = vec![0.0f32; 480]; // 10ms @ 48kHz
    assert_eq!(f.process_gate(0, below_gate(&silence)), FilterDecision::Drop);
}

#[test]
fn mute_window_works() {
    let mut f = VoiceFilter::new();
    f.mute_window(10, 15);
    let loud = vec![0.5f32; 480];
    assert_eq!(f.process_gate(12, below_gate(&loud)), FilterDecision::Mute);
    assert_eq!(f.process_gate(20, below_gate(&loud)), FilterDecision::Pass);
}

#[test]
fn quiet_frame_without_hangover_drops() {
    let mut f = VoiceFilter::new();
    assert_eq!(f.process_gate(0, true), FilterDecision::Drop);
}

#[test]
fn mute_window_mutes_inside_only() {
    let mut f = VoiceFilter::new();
    f.mute_window(10, 15);
    assert_eq!(f.process_gate(12, false), FilterDecision::Mute);
    assert_eq!(f.process_gate(10, false), FilterDecision::Mute);
    assert_eq!(f.process_gate(15, false), FilterDecision::Mute);
    assert_eq!(f.process_gate(20, false), FilterDecision::Pass);
}

#[test]
fn hangover_keeps_four_quiet_frames() {
    let mut f = VoiceFilter::new();
    assert_eq!(f.process_gate(0, false), FilterDecision::Pass);
    for s in 1..5 {
        assert_eq!(f.process_gate(s, true), FilterDecision::Pass);
    }
    assert_eq!(f.process_gate(5, true), FilterDecision::Drop);
    assert_eq!(f.process_gate(6, true), FilterDecision::Drop);
    assert_eq!(f.process_gate(7, false), FilterDecision::Pass);
}

#[test]
fn quiet_frame_in_window_during_hangover_is_muted() {
    let mut f = VoiceFilter::default();
    f.mute_window(0, 100);
    assert_eq!(f.process_gate(1, false), FilterDecision::Mute);
    assert_eq!(f.process_gate(2, true), FilterDecision::Mute);
}

#[test]
fn only_last_twenty_windows_are_kept() {
    let mut f = VoiceFilter::new();
    for i in 0..21u32 {
        f.mute_window(i * 10, i * 10 + 1);
    }
    assert_eq!(f.keyword_mute_windows.len(), 20);
    assert_eq!(f.keyword_mute_windows[0], (10, 11));
    assert_eq!(f.process_gate(0, false), FilterDecision::Pass);
    assert_eq!(f.process_gate(200, false), FilterDecision::Mute);
    assert!(!f.is_muted(5));
    assert!(f.is_muted(11));
    assert_eq!(f.mute_windows(), &f.keyword_mute_windows);
    f.keyword_mute_windows.push((5, 5));
    assert_eq!(f.mute_windows().len(), 21);
    assert!(f.is_muted(5));
}
