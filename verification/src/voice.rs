use vstd::prelude::*;

verus! {

/// Single Opus-encoded voice frame with filter metadata.
#[derive(Debug, Clone)]
pub struct VoiceFrame {
    pub player_id: String,
    pub opus_bytes: Vec<u8>,
    /// standard: 20ms
    pub duration_ms: u8,
    /// filter replaced with silence
    pub muted: bool,
    /// voice activity detected
    pub vad_active: bool,
    /// jitter buffer ordering
    pub seq: u32,
}

/// Filter decision for a voice frame.
#[derive(Debug, Clone, Copy, PartialEq, Eq, Structural)]
pub enum FilterDecision {
    /// forward unchanged
    Pass,
    /// replace with silence (bleep)
    Mute,
    /// below noise gate: discard
    Drop,
}

} // verus!
