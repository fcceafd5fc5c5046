//! Voice pipeline: one voice filter per player.
//!
//! Decoding Opus to PCM and measuring a frame's energy happen before the
//! pipeline; the pipeline is told whether the energy is below the noise
//! gate.

use vstd::prelude::*;
use tokio::sync::mpsc::Sender;
use crate::filter::{VoiceFilter, gate_step, decide, add_mute_window};
use crate::voice::{FilterDecision, VoiceFrame};

verus! {

#[verifier::external_type_specification]
#[verifier::external_body]
#[verifier::reject_recursive_types(T)]
pub struct ExSender<T>(Sender<T>);

/// A filter's state: its VAD hangover and its mute windows.
pub type FilterState = (usize, Seq<(u32, u32)>);

/// The state of the first filter registered for `key`; a fresh filter's
/// state when there is none.
pub open spec fn state_of(s: Seq<(Seq<char>, FilterState)>, key: Seq<char>) -> FilterState
    decreases s.len(),
{
    if s.len() == 0 {
        (0, Seq::empty())
    } else if s[0].0 == key {
        s[0].1
    } else {
        state_of(s.drop_first(), key)
    }
}

/// The frame that goes out for a decision: marked muted for Mute, voice
/// active unless dropped.
pub open spec fn marked(frame: VoiceFrame, d: FilterDecision) -> VoiceFrame {
    VoiceFrame {
        player_id: frame.player_id,
        opus_bytes: frame.opus_bytes,
        duration_ms: frame.duration_ms,
        muted: d == FilterDecision::Mute,
        vad_active: d != FilterDecision::Drop,
        seq: frame.seq,
    }
}

/// The first index at which `s` holds `key`, when all before it hold
/// other keys.
pub open spec fn is_first_match(s: Seq<(Seq<char>, FilterState)>, key: Seq<char>, i: int) -> bool {
    &&& 0 <= i < s.len()
    &&& s[i].0 == key
    &&& forall|j: int| 0 <= j < i ==> s[j].0 != key
}

proof fn lemma_state_of_first(s: Seq<(Seq<char>, FilterState)>, key: Seq<char>, i: int)
    requires
        is_first_match(s, key, i),
    ensures
        state_of(s, key) == s[i].1,
    decreases i,
{
    if i > 0 {
        assert(s[0].0 != key);
        assert(is_first_match(s.drop_first(), key, i - 1));
        lemma_state_of_first(s.drop_first(), key, i - 1);
    }
}

proof fn lemma_state_of_absent(s: Seq<(Seq<char>, FilterState)>, key: Seq<char>)
    requires
        forall|j: int| 0 <= j < s.len() ==> s[j].0 != key,
    ensures
        state_of(s, key) == (0usize, Seq::<(u32, u32)>::empty()),
    decreases s.len(),
{
    if s.len() > 0 {
        assert(s[0].0 != key);
        lemma_state_of_absent(s.drop_first(), key);
    }
}

/// Updating the entry of one key leaves every other key's state.
proof fn lemma_state_of_update_other(s: Seq<(Seq<char>, FilterState)>, i: int, e: (Seq<char>, FilterState), key: Seq<char>)
    requires
        0 <= i < s.len(),
        s[i].0 == e.0,
        key != e.0,
    ensures
        state_of(s.update(i, e), key) == state_of(s, key),
    decreases s.len(),
{
    let u = s.update(i, e);
    if i == 0 {
        assert(u.drop_first() =~= s.drop_first());
        assert(u[0].0 != key);
    } else {
        assert(u[0] == s[0]);
        if s[0].0 != key {
            assert(u.drop_first() =~= s.drop_first().update(i - 1, e));
            lemma_state_of_update_other(s.drop_first(), i - 1, e, key);
        }
    }
}

/// Appending an entry for a new key: that key gets the entry's state, every
/// other key keeps its state.
proof fn lemma_state_of_push(s: Seq<(Seq<char>, FilterState)>, e: (Seq<char>, FilterState), key: Seq<char>)
    requires
        forall|j: int| 0 <= j < s.len() ==> s[j].0 != e.0,
    ensures
        key == e.0 ==> state_of(s.push(e), key) == e.1,
        key != e.0 ==> state_of(s.push(e), key) == state_of(s, key),
    decreases s.len(),
{
    let p = s.push(e);
    if s.len() > 0 {
        assert(p[0] == s[0]);
        assert(p.drop_first() =~= s.drop_first().push(e));
        assert forall|j: int| 0 <= j < s.drop_first().len() implies s.drop_first()[j].0 != e.0 by {
            assert(s[j + 1].0 != e.0);
        }
        lemma_state_of_push(s.drop_first(), e, key);
    } else {
        assert(p[0] == e);
        assert(p.drop_first() =~= Seq::<(Seq<char>, FilterState)>::empty());
        assert(state_of(p.drop_first(), key) == (0usize, Seq::<(u32, u32)>::empty()));
        assert(state_of(s, key) == (0usize, Seq::<(u32, u32)>::empty()));
    }
}

pub struct VoicePipeline {
    /// Per-player filter state, at most one entry per player.
    filters: Vec<(String, VoiceFilter)>,
    /// Processed frames ready to broadcast
    pub output_tx: Sender<VoiceFrame>,
}

impl VoicePipeline {
    /// Each registered player's filter state, in order of registration.
    pub closed spec fn states(&self) -> Seq<(Seq<char>, FilterState)> {
        self.filters@.map_values(|e: (String, VoiceFilter)| (e.0@, (e.1.hangover(), e.1.windows())))
    }

    /// The state of a player's filter; a fresh filter's for a player with
    /// none yet.
    pub open spec fn player_state(&self, player: Seq<char>) -> FilterState {
        state_of(self.states(), player)
    }

    /// The sender that processed frames go out on.
    pub closed spec fn output_sender(&self) -> Sender<VoiceFrame> {
        self.output_tx
    }

    /// A pipeline with no player filters yet, sending processed frames on
    /// `output_tx`.
    pub fn new(output_tx: Sender<VoiceFrame>) -> (p: Self)
        ensures
            p.output_sender() == output_tx,
            forall|k: Seq<char>| p.player_state(k) == (0usize, Seq::<(u32, u32)>::empty()),
    {
        let p = Self { filters: Vec::new(), output_tx };
        proof {
            assert forall|k: Seq<char>| p.player_state(k) == (0usize, Seq::<(u32, u32)>::empty()) by {
                lemma_state_of_absent(p.states(), k);
            }
        }
        p
    }

    /// The index of the player's filter, registering a fresh one if the
    /// player has none.
    fn filter_index(&mut self, player_id: &str) -> (i: usize)
        ensures
            is_first_match(final(self).states(), player_id@, i as int),
            forall|k: Seq<char>| #[trigger] final(self).player_state(k) == old(self).player_state(k),
            final(self).output_sender() == old(self).output_sender(),
    {
        let n = self.filters.len();
        let mut i: usize = 0;
        let key = player_id.to_string();
        while i < n
            invariant
                n == self.filters@.len(),
                0 <= i <= n,
                key@ == player_id@,
                self.states() == old(self).states(),
                self.output_tx == old(self).output_tx,
                forall|j: int| 0 <= j < i ==> #[trigger] self.states()[j].0 != player_id@,
            decreases n - i,
        {
            if self.filters[i].0 == key {
                return i;
            }
            i = i + 1;
        }
        let ghost before = self.states();
        self.filters.push((key, VoiceFilter::new()));
        proof {
            assert(self.states() =~= before.push((player_id@, (0usize, Seq::<(u32, u32)>::empty()))));
            assert forall|k: Seq<char>| #[trigger] self.player_state(k) == old(self).player_state(k) by {
                lemma_state_of_push(before, (player_id@, (0usize, Seq::<(u32, u32)>::empty())), k);
                if k == player_id@ {
                    lemma_state_of_absent(before, k);
                }
            }
        }
        n
    }

    /// Runs a frame through its player's filter, given whether its energy is
    /// below the noise gate. Returns the frame to forward, marked muted or
    /// not and voice active; `None` when the filter drops it (silent frames
    /// are not forwarded). Only that player's filter changes.
    pub fn ingest(&mut self, frame: VoiceFrame, below_gate: bool) -> (r: Option<VoiceFrame>)
        ensures
            ({
                let st = old(self).player_state(frame.player_id@);
                let g = gate_step(st.0, below_gate);
                let d = decide(g, st.1, frame.seq);
                &&& d == FilterDecision::Drop ==> r is None
                &&& d != FilterDecision::Drop ==> r == Some(marked(frame, d))
                &&& final(self).player_state(frame.player_id@) == (
                    match g {
                        Some(h) => h,
                        None => st.0,
                    },
                    st.1,
                )
            }),
            forall|k: Seq<char>| k != frame.player_id@ ==> #[trigger] final(self).player_state(k) == old(self).player_state(k),
            final(self).output_sender() == old(self).output_sender(),
    {
        let i = self.filter_index(frame.player_id.as_str());
        let ghost mid = self.states();
        proof {
            assert forall|k: Seq<char>| state_of(mid, k) == old(self).player_state(k) by {
                assert(self.player_state(k) == old(self).player_state(k));
            }
        }
        let (key, mut filter) = self.filters.remove(i);
        let decision = filter.process_gate(frame.seq, below_gate);
        self.filters.insert(i, (key, filter));
        proof {
            let e = (frame.player_id@, (filter.hangover(), filter.windows()));
            assert(self.states() =~= mid.update(i as int, e));
            lemma_state_of_first(mid, frame.player_id@, i as int);
            assert(is_first_match(self.states(), frame.player_id@, i as int));
            lemma_state_of_first(self.states(), frame.player_id@, i as int);
            assert forall|k: Seq<char>| k != frame.player_id@ implies #[trigger] self.player_state(k) == old(self).player_state(k) by {
                lemma_state_of_update_other(mid, i as int, e, k);
            }
        }
        if decision == FilterDecision::Drop {
            return None;
        }
        let out = VoiceFrame {
            player_id: frame.player_id,
            opus_bytes: frame.opus_bytes,
            duration_ms: frame.duration_ms,
            muted: decision == FilterDecision::Mute,
            vad_active: decision != FilterDecision::Drop,
            seq: frame.seq,
        };
        Some(out)
    }

    /// Registers a mute window for a player (for instance when a keyword is
    /// detected). Only that player's filter changes.
    pub fn mute_player_window(&mut self, player_id: &str, start_seq: u32, end_seq: u32)
        ensures
            final(self).player_state(player_id@) == (
                old(self).player_state(player_id@).0,
                add_mute_window(old(self).player_state(player_id@).1, start_seq, end_seq),
            ),
            forall|k: Seq<char>| k != player_id@ ==> #[trigger] final(self).player_state(k) == old(self).player_state(k),
            final(self).output_sender() == old(self).output_sender(),
    {
        let i = self.filter_index(player_id);
        let ghost mid = self.states();
        proof {
            assert forall|k: Seq<char>| state_of(mid, k) == old(self).player_state(k) by {
                assert(self.player_state(k) == old(self).player_state(k));
            }
        }
        let (key, mut filter) = self.filters.remove(i);
        filter.mute_window(start_seq, end_seq);
        self.filters.insert(i, (key, filter));
        proof {
            let e = (player_id@, (filter.hangover(), filter.windows()));
            assert(self.states() =~= mid.update(i as int, e));
            lemma_state_of_first(mid, player_id@, i as int);
            assert(is_first_match(self.states(), player_id@, i as int));
            lemma_state_of_first(self.states(), player_id@, i as int);
            assert forall|k: Seq<char>| k != player_id@ implies #[trigger] self.player_state(k) == old(self).player_state(k) by {
                lemma_state_of_update_other(mid, i as int, e, k);
            }
        }
    }
}

} // verus!
