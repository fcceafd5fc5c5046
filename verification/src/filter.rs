//! Light voice filter: noise gate with VAD hangover, and keyword mute
//! windows.
//!
//! The energy of a PCM frame is measured by the caller; this filter decides
//! from whether that energy is below the noise gate.

use vstd::prelude::*;
use std::collections::VecDeque;
use crate::voice::{FilterDecision, VoiceFrame};

verus! {

/// How many consecutive silent frames pass before VAD goes inactive (80ms).
pub const VAD_HANGOVER_FRAMES: usize = 4;

/// How many mute windows are kept; registering one more drops the oldest.
pub const MAX_MUTE_WINDOWS: usize = 20;

/// Whether `seq` falls inside one of the windows (bounds included).
pub open spec fn in_mute_window(windows: Seq<(u32, u32)>, seq: u32) -> bool {
    exists|i: int| 0 <= i < windows.len() && #[trigger] windows[i].0 <= seq && seq <= windows[i].1
}

/// The window list after registering `(start, end)`: appended, and the
/// oldest dropped when more than MAX_MUTE_WINDOWS would be kept.
pub open spec fn add_mute_window(windows: Seq<(u32, u32)>, start: u32, end: u32) -> Seq<(u32, u32)> {
    let w = windows.push((start, end));
    if w.len() > MAX_MUTE_WINDOWS {
        w.drop_first()
    } else {
        w
    }
}

/// The noise gate on one frame, from the hangover count and whether the
/// frame's energy is below the noise gate: `None` when the frame is dropped (the
/// count stays), else the new count. A loud frame restarts the hangover; a
/// quiet one uses up one frame of it.
pub open spec fn gate_step(hangover: usize, below_gate: bool) -> Option<usize> {
    if below_gate {
        if hangover > 0 {
            Some((hangover - 1) as usize)
        } else {
            None
        }
    } else {
        Some(VAD_HANGOVER_FRAMES)
    }
}

/// The decision for a frame that the noise gate let through or dropped.
pub open spec fn decide(gate: Option<usize>, windows: Seq<(u32, u32)>, seq: u32) -> FilterDecision {
    match gate {
        None => FilterDecision::Drop,
        Some(_) => if in_mute_window(windows, seq) {
            FilterDecision::Mute
        } else {
            FilterDecision::Pass
        },
    }
}

/// A frame let through by the noise gate is muted when its seq lies inside
/// any of the windows, whichever it is, and passes when it lies inside
/// none; a quiet frame with no hangover left is dropped; a loud frame
/// restarts the hangover.
pub proof fn lemma_mute_decision(windows: Seq<(u32, u32)>, seq: u32, hangover: usize, below_gate: bool, i: int)
    ensures
        gate_step(hangover, below_gate) is Some && 0 <= i < windows.len() && windows[i].0 <= seq && seq <= windows[i].1
            ==> decide(gate_step(hangover, below_gate), windows, seq) == FilterDecision::Mute,
        gate_step(hangover, below_gate) is Some
            && (forall|j: int| 0 <= j < windows.len() ==> !(windows[j].0 <= seq && seq <= windows[j].1))
            ==> decide(gate_step(hangover, below_gate), windows, seq) == FilterDecision::Pass,
        gate_step(hangover, below_gate) is None ==> decide(gate_step(hangover, below_gate), windows, seq) == FilterDecision::Drop,
        !below_gate ==> gate_step(hangover, below_gate) == Some(VAD_HANGOVER_FRAMES),
{
    if 0 <= i < windows.len() && windows[i].0 <= seq && seq <= windows[i].1 {
        assert(in_mute_window(windows, seq));
    }
}

/// After registering a window, every seq it covers is in a window, and the
/// windows kept from before still cover what they covered, but for the
/// oldest when MAX_MUTE_WINDOWS are already kept.
pub proof fn lemma_earlier_windows_still_mute(windows: Seq<(u32, u32)>, start: u32, end: u32, seq: u32, i: int)
    ensures
        start <= seq && seq <= end ==> in_mute_window(add_mute_window(windows, start, end), seq),
        0 <= i < windows.len() && windows[i].0 <= seq && seq <= windows[i].1
            && (windows.len() < MAX_MUTE_WINDOWS || i > 0)
            ==> in_mute_window(add_mute_window(windows, start, end), seq),
{
    let w = windows.push((start, end));
    let a = add_mute_window(windows, start, end);
    if start <= seq && seq <= end {
        let k = a.len() - 1;
        assert(a[k] == (start, end));
        assert(a[k].0 <= seq && seq <= a[k].1);
    }
    if 0 <= i < windows.len() && windows[i].0 <= seq && seq <= windows[i].1 && (windows.len() < MAX_MUTE_WINDOWS || i > 0) {
        if w.len() > MAX_MUTE_WINDOWS {
            assert(a[i - 1] == windows[i]);
            assert(a[i - 1].0 <= seq && seq <= a[i - 1].1);
        } else {
            assert(a[i] == windows[i]);
            assert(a[i].0 <= seq && seq <= a[i].1);
        }
    }
}

pub struct VoiceFilter {
    /// Sliding lookahead buffer for bleep timing.
    lookahead: VecDeque<VoiceFrame>,
    /// Frames remaining in current mute window.
    mute_remaining: usize,
    /// VAD hangover counter.
    vad_hangover: usize,
    /// Mute windows by sequence range, (start_seq, end_seq), both included.
    /// In practice a window is flagged when a transcript hits a keyword;
    /// without one, muting is energy-pattern based only.
    pub keyword_mute_windows: Vec<(u32, u32)>,
}

impl VoiceFilter {
    /// The VAD hangover: how many more quiet frames pass the noise gate.
    pub closed spec fn hangover(&self) -> usize {
        self.vad_hangover
    }

    /// The registered mute windows, oldest first.
    pub closed spec fn windows(&self) -> Seq<(u32, u32)> {
        self.keyword_mute_windows@
    }

    /// The public field `keyword_mute_windows`: what it holds is the
    /// registered mute windows, so a write to the field is a change of the
    /// windows.
    pub fn mute_windows(&self) -> (r: &Vec<(u32, u32)>)
        ensures
            r@ == self.windows(),
    {
        &self.keyword_mute_windows
    }

    pub fn new() -> (f: Self)
        ensures
            f.windows() == Seq::<(u32, u32)>::empty(),
            f.hangover() == 0,
    {
        Self {
            lookahead: VecDeque::with_capacity(4),
            mute_remaining: 0,
            vad_hangover: 0,
            keyword_mute_windows: Vec::new(),
        }
    }

    /// Decides on a frame with sequence number `seq`, from whether its energy
    /// is below the noise gate: quiet frames are dropped once the hangover
    /// is used up; a frame inside a mute window is muted; others pass.
    pub fn process_gate(&mut self, seq: u32, below_gate: bool) -> (d: FilterDecision)
        ensures
            d == decide(gate_step(old(self).hangover(), below_gate), old(self).windows(), seq),
            final(self).hangover() == match gate_step(old(self).hangover(), below_gate) {
                Some(h) => h,
                None => old(self).hangover(),
            },
            final(self).windows() == old(self).windows(),
    {
        if below_gate {
            if self.vad_hangover > 0 {
                self.vad_hangover = self.vad_hangover - 1;
            } else {
                return FilterDecision::Drop;
            }
        } else {
            self.vad_hangover = VAD_HANGOVER_FRAMES;
        }
        if self.is_muted(seq) {
            return FilterDecision::Mute;
        }
        FilterDecision::Pass
    }

    /// Registers a mute window by sequence range, keeping the last
    /// MAX_MUTE_WINDOWS of them.
    pub fn mute_window(&mut self, start_seq: u32, end_seq: u32)
        ensures
            final(self).windows() == add_mute_window(old(self).windows(), start_seq, end_seq),
            final(self).hangover() == old(self).hangover(),
    {
        self.keyword_mute_windows.push((start_seq, end_seq));
        if self.keyword_mute_windows.len() > MAX_MUTE_WINDOWS {
            self.keyword_mute_windows.remove(0);
        }
        proof {
            let w = old(self).keyword_mute_windows@.push((start_seq, end_seq));
            if w.len() > MAX_MUTE_WINDOWS {
                assert(self.keyword_mute_windows@ =~= w.drop_first());
            }
        }
    }

    /// Whether `seq` falls inside a registered mute window.
    pub fn is_muted(&self, seq: u32) -> (r: bool)
        ensures
            r == in_mute_window(self.windows(), seq),
    {
        let n = self.keyword_mute_windows.len();
        let mut i: usize = 0;
        while i < n
            invariant
                n == self.keyword_mute_windows@.len(),
                0 <= i <= n,
                forall|j: int| 0 <= j < i ==> !(#[trigger] self.keyword_mute_windows@[j].0 <= seq && seq <= self.keyword_mute_windows@[j].1),
            decreases n - i,
        {
            let (start, end) = self.keyword_mute_windows[i];
            if seq >= start && seq <= end {
                return true;
            }
            i = i + 1;
        }
        false
    }
}

impl Default for VoiceFilter {
    fn default() -> (f: Self)
        ensures
            f.windows() == Seq::<(u32, u32)>::empty(),
            f.hangover() == 0,
    {
        Self::new()
    }
}

/// A registered window mutes every frame inside it that the noise gate lets
/// through, however many windows were registered before.
pub proof fn lemma_registered_window_mutes(windows: Seq<(u32, u32)>, start: u32, end: u32, seq: u32, gate: usize)
    requires
        start <= seq <= end,
    ensures
        decide(Some(gate), add_mute_window(windows, start, end), seq) == FilterDecision::Mute,
{
    let w = add_mute_window(windows, start, end);
    let k = w.len() - 1;
    assert(w[k] == (start, end));
    assert(w[k].0 <= seq && seq <= w[k].1);
    assert(in_mute_window(w, seq));
}

/// The window list never grows beyond MAX_MUTE_WINDOWS.
pub proof fn lemma_window_count_bounded(windows: Seq<(u32, u32)>, start: u32, end: u32)
    requires
        windows.len() <= MAX_MUTE_WINDOWS,
    ensures
        add_mute_window(windows, start, end).len() <= MAX_MUTE_WINDOWS,
{
}

/// After a loud frame, the next VAD_HANGOVER_FRAMES quiet frames pass the
/// gate and the one after them is dropped.
pub proof fn lemma_hangover_after_voice(h: usize)
    ensures
        ({
            let h0 = gate_step(h, false).unwrap();
            let h1 = gate_step(h0, true);
            let h2 = gate_step(h1.unwrap(), true);
            let h3 = gate_step(h2.unwrap(), true);
            let h4 = gate_step(h3.unwrap(), true);
            &&& h0 == VAD_HANGOVER_FRAMES
            &&& h1 is Some && h2 is Some && h3 is Some && h4 is Some
            &&& gate_step(h4.unwrap(), true) is None
        }),
{
}

/// A quiet frame with no hangover left is dropped, whatever the windows say.
pub proof fn lemma_silence_drops(windows: Seq<(u32, u32)>, seq: u32)
    ensures
        decide(gate_step(0, true), windows, seq) == FilterDecision::Drop,
{
}

} // verus!
