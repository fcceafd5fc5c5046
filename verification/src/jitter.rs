//! Minimal jitter buffer: reorders out-of-sequence Opus frames.
//!
//! Holds up to BUFFER_DEPTH frames, releases them in seq order.
//! A frame that arrives too late (more than MAX_GAP behind) is dropped.
//!
//! The frames are kept in a `BTreeMap` keyed by seq; the buffer is seen as
//! the sequence of its frames in order of seq.

use vstd::prelude::*;
use std::collections::BTreeMap;
use crate::voice::VoiceFrame;

verus! {

broadcast use vstd::std_specs::btree::group_btree_axioms, vstd::laws_cmp::group_laws_cmp;

/// Frames held before the oldest is released regardless of gaps.
pub const BUFFER_DEPTH: usize = 4;

/// How far behind the next expected seq a frame may arrive and still be kept.
pub const MAX_GAP: u32 = 10;

/// The frames of a buffer, in their order of seq, and the next seq it
/// expects to release.
pub struct JitterView {
    pub frames: Seq<VoiceFrame>,
    pub next_seq: u32,
}

/// Frames ordered by strictly increasing seq.
pub open spec fn sorted_by_seq(s: Seq<VoiceFrame>) -> bool {
    forall|i: int, j: int| 0 <= i < j < s.len() ==> s[i].seq < s[j].seq
}

/// The position at which a frame with seq `seq` belongs in `s`: every frame
/// before it has a smaller seq, every frame from it on a seq at least as large.
pub open spec fn is_insert_pos(s: Seq<VoiceFrame>, seq: u32, i: int) -> bool {
    &&& 0 <= i <= s.len()
    &&& forall|j: int| 0 <= j < i ==> s[j].seq < seq
    &&& forall|j: int| i <= j < s.len() ==> s[j].seq >= seq
}

pub open spec fn insert_pos(s: Seq<VoiceFrame>, seq: u32) -> int {
    choose|i: int| is_insert_pos(s, seq, i)
}

/// `s` with `f` put in its place by seq, replacing a frame with the same seq.
pub open spec fn insert_by_seq(s: Seq<VoiceFrame>, f: VoiceFrame) -> Seq<VoiceFrame> {
    let i = insert_pos(s, f.seq);
    if i < s.len() && s[i].seq == f.seq {
        s.update(i, f)
    } else {
        s.insert(i, f)
    }
}

/// `s` without its oldest frames beyond the buffer depth.
pub open spec fn trim_to_depth(s: Seq<VoiceFrame>) -> Seq<VoiceFrame> {
    if s.len() > BUFFER_DEPTH {
        s.skip(s.len() - BUFFER_DEPTH)
    } else {
        s
    }
}

/// Releasing frames from the front of `s`: the first frame leaves when it is
/// the expected one or the buffer is full, and every frame that leaves makes
/// its successor the expected one. The result is the frames released, the
/// frames kept and the next expected seq.
pub open spec fn drain_ready_spec(s: Seq<VoiceFrame>, next: u32) -> (Seq<VoiceFrame>, Seq<VoiceFrame>, u32)
    decreases s.len(),
{
    if s.len() > 0 && (s[0].seq == next || s.len() >= BUFFER_DEPTH) {
        let r = drain_ready_spec(s.drop_first(), (s[0].seq + 1) as u32);
        (seq![s[0]] + r.0, r.1, r.2)
    } else {
        (Seq::empty(), s, next)
    }
}

/// A frame arrives too late when it is more than MAX_GAP behind the next
/// expected seq.
pub open spec fn is_late(seq: u32, next: u32) -> bool {
    seq + MAX_GAP < next
}

/// What a push does: the frames released and the buffer afterwards.
pub open spec fn push_spec(v: JitterView, f: VoiceFrame) -> (Seq<VoiceFrame>, JitterView) {
    if is_late(f.seq, v.next_seq) {
        (Seq::empty(), v)
    } else {
        let d = drain_ready_spec(trim_to_depth(insert_by_seq(v.frames, f)), v.next_seq);
        (d.0, JitterView { frames: d.1, next_seq: d.2 })
    }
}

/// Each frame after the first has the successor seq of the frame before it.
pub open spec fn consecutive_seqs(s: Seq<VoiceFrame>) -> bool {
    forall|i: int| 0 < i < s.len() ==> #[trigger] s[i].seq == s[i - 1].seq + 1
}

/// Releasing splits the buffer: the frames released followed by the frames
/// kept are the frames that were there.
pub proof fn lemma_drain_partitions(s: Seq<VoiceFrame>, next: u32)
    ensures
        drain_ready_spec(s, next).0 + drain_ready_spec(s, next).1 == s,
    decreases s.len(),
{
    if s.len() > 0 && (s[0].seq == next || s.len() >= BUFFER_DEPTH) {
        lemma_drain_partitions(s.drop_first(), (s[0].seq + 1) as u32);
        let r = drain_ready_spec(s.drop_first(), (s[0].seq + 1) as u32);
        assert(r.0 + r.1 == s.drop_first());
        assert(seq![s[0]] + r.0 + r.1 =~= seq![s[0]] + (r.0 + r.1));
        assert(seq![s[0]] + s.drop_first() =~= s);
    } else {
        assert(Seq::<VoiceFrame>::empty() + s =~= s);
    }
}

/// From a buffer of at most BUFFER_DEPTH frames, the frames after the first
/// one released each have the successor seq of the frame released before it,
/// and the next expected seq is the successor of the last one released.
pub proof fn lemma_drain_consecutive(s: Seq<VoiceFrame>, next: u32)
    requires
        s.len() <= BUFFER_DEPTH,
        forall|i: int| 0 <= i < s.len() ==> s[i].seq < u32::MAX,
    ensures
        ({
            let out = drain_ready_spec(s, next).0;
            &&& consecutive_seqs(out)
            &&& out.len() > 0 ==> drain_ready_spec(s, next).2 == out.last().seq + 1
            &&& out.len() == 0 ==> drain_ready_spec(s, next).2 == next
            &&& drain_ready_spec(s, next).1.len() < BUFFER_DEPTH
        }),
    decreases s.len(),
{
    if s.len() > 0 && (s[0].seq == next || s.len() >= BUFFER_DEPTH) {
        let n2 = (s[0].seq + 1) as u32;
        let t = s.drop_first();
        lemma_drain_consecutive(t, n2);
        let r = drain_ready_spec(t, n2);
        let out = seq![s[0]] + r.0;
        if r.0.len() > 0 {
            // the first frame of the rest left because it was expected: the
            // rest holds fewer than BUFFER_DEPTH frames
            assert(t.len() < BUFFER_DEPTH);
            assert(t[0].seq == n2);
            assert(r.0[0] == t[0]);
        }
        assert forall|i: int| 0 < i < out.len() implies #[trigger] out[i].seq == out[i - 1].seq + 1 by {
            assert(out[i] == r.0[i - 1]);
            if i > 1 {
                assert(out[i - 1] == r.0[i - 2]);
            }
        }
    }
}

/// Frames leave the buffer in order of seq, each the successor of the one
/// before; and a push leaves fewer than BUFFER_DEPTH frames buffered.
pub proof fn lemma_push_releases_in_order(v: JitterView, f: VoiceFrame)
    requires
        jitter_wf(v),
        f.seq <= u32::MAX - MAX_GAP,
    ensures
        ({
            let (out, w) = push_spec(v, f);
            &&& consecutive_seqs(out)
            &&& w.frames.len() < BUFFER_DEPTH
            &&& out.len() > 0 ==> w.next_seq == out.last().seq + 1
            &&& out.len() == 0 ==> w.next_seq == v.next_seq
        }),
{
    if !is_late(f.seq, v.next_seq) {
        let ins = insert_by_seq(v.frames, f);
        lemma_insert_by_seq(v.frames, f);
        let t = trim_to_depth(ins);
        assert forall|i: int| 0 <= i < t.len() implies t[i].seq < u32::MAX by {
            if ins.len() > BUFFER_DEPTH {
                assert(t[i] == ins[i + ins.len() - BUFFER_DEPTH]);
            }
        }
        lemma_drain_consecutive(t, v.next_seq);
    }
}

/// A push keeps a buffer well formed.
pub proof fn lemma_push_keeps_wf(v: JitterView, f: VoiceFrame)
    requires
        jitter_wf(v),
        f.seq <= u32::MAX - MAX_GAP,
    ensures
        jitter_wf(push_spec(v, f).1),
{
    lemma_push_releases_in_order(v, f);
    if !is_late(f.seq, v.next_seq) {
        let ins = insert_by_seq(v.frames, f);
        lemma_insert_by_seq(v.frames, f);
        let t = trim_to_depth(ins);
        let off = if ins.len() > BUFFER_DEPTH { ins.len() - BUFFER_DEPTH } else { 0 };
        assert forall|i: int| 0 <= i < t.len() implies t[i] == ins[i + off] by {}
        lemma_drain_partitions(t, v.next_seq);
        let d = drain_ready_spec(t, v.next_seq);
        let k = d.0.len();
        assert forall|i: int| 0 <= i < d.1.len() implies d.1[i] == t[i + k] by {
            assert((d.0 + d.1)[i + k] == d.1[i]);
        }
        assert forall|a: int, b: int| 0 <= a < b < d.1.len() implies d.1[a].seq < d.1[b].seq by {
            assert(d.1[a] == ins[a + k + off]);
            assert(d.1[b] == ins[b + k + off]);
        }
        assert forall|i: int| 0 <= i < d.1.len() implies d.1[i].seq <= u32::MAX - MAX_GAP by {
            assert(d.1[i] == ins[i + k + off]);
        }
    }
}

/// A push invents no frame and repeats none: the frames it releases and
/// the frames it keeps, counted with their multiplicity, are among the
/// frames that were buffered and the frame pushed.
pub proof fn lemma_push_conserves_frames(v: JitterView, f: VoiceFrame)
    requires
        jitter_wf(v),
        f.seq <= u32::MAX - MAX_GAP,
    ensures
        (push_spec(v, f).0 + push_spec(v, f).1.frames).to_multiset().subset_of(v.frames.to_multiset().insert(f)),
{
    broadcast use vstd::multiset::group_multiset_axioms, vstd::seq_lib::lemma_multiset_commutative;
    let m = v.frames.to_multiset().insert(f);
    if is_late(f.seq, v.next_seq) {
        assert(push_spec(v, f).0 + push_spec(v, f).1.frames =~= v.frames);
    } else {
        let s = v.frames;
        let ins = insert_by_seq(s, f);
        lemma_insert_pos_exists(s, f.seq);
        let i = insert_pos(s, f.seq);
        assert(is_insert_pos(s, f.seq, i));
        if i < s.len() && s[i].seq == f.seq {
            vstd::seq_lib::to_multiset_update(s, i, f);
        } else {
            vstd::seq_lib::to_multiset_insert(s, i, f);
        }
        assert(ins.to_multiset().subset_of(m));
        let t = trim_to_depth(ins);
        if ins.len() > BUFFER_DEPTH {
            let off = ins.len() - BUFFER_DEPTH;
            assert(ins =~= ins.take(off) + t);
        }
        assert(t.to_multiset().subset_of(m));
        lemma_drain_partitions(t, v.next_seq);
    }
}

/// The frames released and kept after a run of pushes, in order.
pub open spec fn push_all(v: JitterView, frames: Seq<VoiceFrame>) -> (Seq<VoiceFrame>, JitterView)
    decreases frames.len(),
{
    if frames.len() == 0 {
        (Seq::empty(), v)
    } else {
        let (out, w) = push_all(v, frames.drop_last());
        let (more, u) = push_spec(w, frames.last());
        (out + more, u)
    }
}

/// Over any run of pushes, no frame is invented or released twice: every
/// frame released, and every frame still buffered, was buffered before the
/// run or pushed during it, counted with multiplicity; and the buffer stays
/// well formed.
pub proof fn lemma_pushes_conserve_frames(v: JitterView, frames: Seq<VoiceFrame>)
    requires
        jitter_wf(v),
        forall|i: int| 0 <= i < frames.len() ==> #[trigger] frames[i].seq <= u32::MAX - MAX_GAP,
    ensures
        jitter_wf(push_all(v, frames).1),
        (push_all(v, frames).0 + push_all(v, frames).1.frames).to_multiset().subset_of(
            v.frames.to_multiset().add(frames.to_multiset()),
        ),
    decreases frames.len(),
{
    broadcast use vstd::multiset::group_multiset_axioms, vstd::seq_lib::lemma_multiset_commutative;
    if frames.len() == 0 {
        assert(push_all(v, frames).0 + push_all(v, frames).1.frames =~= v.frames);
    } else {
        let init = frames.drop_last();
        let f = frames.last();
        lemma_pushes_conserve_frames(v, init);
        let (out, w) = push_all(v, init);
        assert(f == frames[frames.len() - 1]);
        lemma_push_keeps_wf(w, f);
        lemma_push_conserves_frames(w, f);
        let (more, u) = push_spec(w, f);
        vstd::seq_lib::to_multiset_build(init, f);
        assert(init.push(f) =~= frames);
        assert(out + more + u.frames =~= out + (more + u.frames));
        let lhs = (out + more + u.frames).to_multiset();
        let rhs = v.frames.to_multiset().add(frames.to_multiset());
        assert forall|x: VoiceFrame| lhs.count(x) <= rhs.count(x) by {
            assert(out.to_multiset().add(w.frames.to_multiset()).count(x)
                <= v.frames.to_multiset().add(init.to_multiset()).count(x));
            assert((more + u.frames).to_multiset().count(x) <= w.frames.to_multiset().insert(f).count(x));
        }
    }
}

/// The frames of a push, before release: the buffered frames with the new
/// one in its place, trimmed to the buffer depth. The frames released and
/// the frames kept are, in order, these frames; and each of them was
/// buffered or is the new one.
proof fn lemma_push_splits_candidates(v: JitterView, f: VoiceFrame)
    requires
        jitter_wf(v),
        f.seq <= u32::MAX - MAX_GAP,
        !is_late(f.seq, v.next_seq),
    ensures
        ({
            let t = trim_to_depth(insert_by_seq(v.frames, f));
            let (out, w) = push_spec(v, f);
            &&& sorted_by_seq(t)
            &&& out + w.frames == t
            &&& forall|j: int| 0 <= j < t.len() ==> (t[j] == f || v.frames.contains(#[trigger] t[j]))
        }),
{
    let s = v.frames;
    let ins = insert_by_seq(s, f);
    lemma_insert_by_seq(s, f);
    lemma_insert_pos_exists(s, f.seq);
    let i = insert_pos(s, f.seq);
    assert(is_insert_pos(s, f.seq, i));
    assert forall|j: int| 0 <= j < ins.len() implies (ins[j] == f || s.contains(#[trigger] ins[j])) by {
        if i < s.len() && s[i].seq == f.seq {
            if j != i {
                assert(ins[j] == s[j]);
            }
        } else if j < i {
            assert(ins[j] == s[j]);
        } else if j > i {
            assert(ins[j] == s[j - 1]);
        }
    }
    let t = trim_to_depth(ins);
    let off = if ins.len() > BUFFER_DEPTH { ins.len() - BUFFER_DEPTH } else { 0 };
    assert forall|j: int| 0 <= j < t.len() implies t[j] == ins[j + off] by {}
    assert forall|a: int, b: int| 0 <= a < b < t.len() implies t[a].seq < t[b].seq by {
        assert(t[a] == ins[a + off]);
        assert(t[b] == ins[b + off]);
    }
    assert forall|j: int| 0 <= j < t.len() implies (t[j] == f || s.contains(#[trigger] t[j])) by {
        assert(t[j] == ins[j + off]);
    }
    lemma_drain_partitions(t, v.next_seq);
}

/// When every buffered frame and the new frame are at or after the next
/// expected seq, a push releases frames in increasing seq, all at or after
/// it, and keeps only frames at or after the new next expected seq.
proof fn lemma_push_order_step(v: JitterView, f: VoiceFrame)
    requires
        jitter_wf(v),
        f.seq <= u32::MAX - MAX_GAP,
        f.seq >= v.next_seq,
        forall|i: int| 0 <= i < v.frames.len() ==> #[trigger] v.frames[i].seq >= v.next_seq,
    ensures
        ({
            let (out, w) = push_spec(v, f);
            &&& sorted_by_seq(out)
            &&& forall|i: int| 0 <= i < out.len() ==> #[trigger] out[i].seq >= v.next_seq
            &&& forall|i: int| 0 <= i < w.frames.len() ==> #[trigger] w.frames[i].seq >= w.next_seq
            &&& out.len() > 0 ==> w.next_seq == out.last().seq + 1
            &&& out.len() == 0 ==> w.next_seq == v.next_seq
        }),
{
    lemma_push_releases_in_order(v, f);
    lemma_push_splits_candidates(v, f);
    let t = trim_to_depth(insert_by_seq(v.frames, f));
    let (out, w) = push_spec(v, f);
    let k = out.len();
    assert forall|j: int| 0 <= j < t.len() implies #[trigger] t[j].seq >= v.next_seq by {
        if t[j] != f {
            assert(v.frames.contains(t[j]));
            let x = choose|x: int| 0 <= x < v.frames.len() && v.frames[x] == t[j];
            assert(v.frames[x].seq >= v.next_seq);
        }
    }
    assert forall|i: int| 0 <= i < k implies out[i] == t[i] by {
        assert((out + w.frames)[i] == out[i]);
    }
    assert forall|i: int| 0 <= i < w.frames.len() implies w.frames[i] == t[i + k] by {
        assert((out + w.frames)[i + k] == w.frames[i]);
    }
    assert forall|i: int| 0 <= i < out.len() implies #[trigger] out[i].seq >= v.next_seq by {
        assert(out[i] == t[i]);
    }
    assert forall|a: int, b: int| 0 <= a < b < out.len() implies out[a].seq < out[b].seq by {
        assert(out[a] == t[a]);
        assert(out[b] == t[b]);
    }
    assert forall|i: int| 0 <= i < w.frames.len() implies #[trigger] w.frames[i].seq >= w.next_seq by {
        assert(w.frames[i] == t[i + k]);
        if k > 0 {
            assert(out.last() == t[k - 1]);
        }
    }
}

/// Across a run of pushes into a buffer whose frames are all at or after
/// its next expected seq, where each frame pushed is at or after that seq
/// and after every frame released so far: all the frames released, in the
/// order of the pushes, are in strictly increasing seq.
proof fn lemma_pushes_in_order_from(v: JitterView, frames: Seq<VoiceFrame>)
    requires
        jitter_wf(v),
        forall|i: int| 0 <= i < v.frames.len() ==> #[trigger] v.frames[i].seq >= v.next_seq,
        forall|k: int| 0 <= k < frames.len() ==> #[trigger] frames[k].seq <= u32::MAX - MAX_GAP,
        forall|k: int| 0 <= k < frames.len() ==> #[trigger] frames[k].seq >= v.next_seq,
        forall|k: int, j: int|
            0 <= k < frames.len() && 0 <= j < push_all(v, frames.take(k)).0.len()
                ==> #[trigger] push_all(v, frames.take(k)).0[j].seq < #[trigger] frames[k].seq,
    ensures
        ({
            let (outs, w) = push_all(v, frames);
            &&& jitter_wf(w)
            &&& sorted_by_seq(outs)
            &&& forall|i: int| 0 <= i < w.frames.len() ==> #[trigger] w.frames[i].seq >= w.next_seq
            &&& forall|i: int| 0 <= i < outs.len() ==> #[trigger] outs[i].seq < w.next_seq
            &&& outs.len() > 0 ==> w.next_seq == outs.last().seq + 1
            &&& outs.len() == 0 ==> w.next_seq == v.next_seq
        }),
    decreases frames.len(),
{
    if frames.len() > 0 {
        let n = frames.len() - 1;
        let init = frames.drop_last();
        let f = frames.last();
        assert forall|k: int, j: int|
            0 <= k < init.len() && 0 <= j < push_all(v, init.take(k)).0.len()
                implies #[trigger] push_all(v, init.take(k)).0[j].seq < #[trigger] init[k].seq by {
            assert(init.take(k) =~= frames.take(k));
            assert(init[k] == frames[k]);
        }
        lemma_pushes_in_order_from(v, init);
        let (outs, w) = push_all(v, init);
        assert(frames.take(n) =~= init);
        assert(f == frames[n]);
        assert(f.seq >= w.next_seq) by {
            if outs.len() > 0 {
                assert(push_all(v, frames.take(n)).0[outs.len() - 1].seq < frames[n].seq);
            }
        }
        lemma_push_keeps_wf(w, f);
        lemma_push_order_step(w, f);
        let (more, u) = push_spec(w, f);
        lemma_push_releases_in_order(w, f);
        let all = outs + more;
        assert forall|a: int, b: int| 0 <= a < b < all.len() implies all[a].seq < all[b].seq by {
            if b < outs.len() {
                assert(all[a] == outs[a] && all[b] == outs[b]);
            } else if a < outs.len() {
                assert(all[a] == outs[a] && all[b] == more[b - outs.len()]);
                assert(outs[a].seq < w.next_seq);
                assert(more[b - outs.len()].seq >= w.next_seq);
            } else {
                assert(all[a] == more[a - outs.len()] && all[b] == more[b - outs.len()]);
            }
        }
        assert forall|i: int| 0 <= i < all.len() implies #[trigger] all[i].seq < u.next_seq by {
            if more.len() > 0 {
                assert(more.last() == more[more.len() - 1]);
                if i < outs.len() {
                    assert(all[i] == outs[i]);
                    assert(more[0].seq >= w.next_seq);
                    assert(more[0].seq <= more.last().seq) by {
                        if more.len() > 1 {
                            assert(more[0].seq < more[more.len() - 1].seq);
                        }
                    }
                } else {
                    assert(all[i] == more[i - outs.len()]);
                    if i - outs.len() < more.len() - 1 {
                        assert(more[i - outs.len()].seq < more[more.len() - 1].seq);
                    }
                }
            } else {
                assert(all[i] == outs[i]);
            }
        }
        if more.len() > 0 {
            assert(all.last() == more.last());
        } else {
            assert(all =~= outs);
        }
    }
}

/// Frames come out in seq order across calls: from a fresh buffer, when
/// every frame pushed is after every frame released before its push, the
/// frames released by all the pushes, in call order, are in strictly
/// increasing seq (so none comes out twice).
pub proof fn lemma_pushes_release_in_order(v: JitterView, frames: Seq<VoiceFrame>)
    requires
        v.frames.len() == 0,
        v.next_seq == 0,
        forall|k: int| 0 <= k < frames.len() ==> #[trigger] frames[k].seq <= u32::MAX - MAX_GAP,
        forall|k: int, j: int|
            0 <= k < frames.len() && 0 <= j < push_all(v, frames.take(k)).0.len()
                ==> #[trigger] push_all(v, frames.take(k)).0[j].seq < #[trigger] frames[k].seq,
    ensures
        sorted_by_seq(push_all(v, frames).0),
{
    lemma_pushes_in_order_from(v, frames);
}

/// A push of a frame that is not late and whose seq no buffered frame has
/// loses nothing: the frames released and kept are exactly the frames that
/// were buffered and the new one.
pub proof fn lemma_push_keeps_every_frame(v: JitterView, f: VoiceFrame)
    requires
        jitter_wf(v),
        f.seq <= u32::MAX - MAX_GAP,
        !is_late(f.seq, v.next_seq),
        forall|i: int| 0 <= i < v.frames.len() ==> #[trigger] v.frames[i].seq != f.seq,
    ensures
        (push_spec(v, f).0 + push_spec(v, f).1.frames).to_multiset() == v.frames.to_multiset().insert(f),
{
    let s = v.frames;
    lemma_insert_pos_exists(s, f.seq);
    let i = insert_pos(s, f.seq);
    assert(is_insert_pos(s, f.seq, i));
    let ins = insert_by_seq(s, f);
    assert(ins == s.insert(i, f));
    vstd::seq_lib::to_multiset_insert(s, i, f);
    assert(trim_to_depth(ins) == ins);
    lemma_drain_partitions(ins, v.next_seq);
}

/// A push never loses a frame that is at most MAX_GAP behind the next
/// expected seq (in particular one at or after it): the frame is released
/// or kept; and when no buffered frame has its seq, the frames released
/// and kept are exactly the frames buffered before and the new one.
pub proof fn lemma_push_keeps_timely_frame(v: JitterView, f: VoiceFrame)
    requires
        jitter_wf(v),
        f.seq <= u32::MAX - MAX_GAP,
        f.seq + MAX_GAP >= v.next_seq,
    ensures
        (push_spec(v, f).0 + push_spec(v, f).1.frames).contains(f),
        (forall|i: int| 0 <= i < v.frames.len() ==> #[trigger] v.frames[i].seq != f.seq)
            ==> (push_spec(v, f).0 + push_spec(v, f).1.frames).to_multiset() == v.frames.to_multiset().insert(f),
{
    assert(!is_late(f.seq, v.next_seq));
    lemma_push_splits_candidates(v, f);
    let ins = insert_by_seq(v.frames, f);
    lemma_insert_by_seq(v.frames, f);
    assert(trim_to_depth(ins) == ins);
    if forall|i: int| 0 <= i < v.frames.len() ==> #[trigger] v.frames[i].seq != f.seq {
        lemma_push_keeps_every_frame(v, f);
    }
}

/// No accepted frame is lost over a run of pushes: when no frame pushed is
/// late, no two frames pushed share a seq and none shares one with a frame
/// buffered before, the frames released and the frames still buffered are
/// exactly the frames buffered before and those pushed; so fewer than
/// BUFFER_DEPTH of them are held back.
pub proof fn lemma_pushes_lose_nothing(v: JitterView, frames: Seq<VoiceFrame>)
    requires
        jitter_wf(v),
        forall|k: int| 0 <= k < frames.len() ==> #[trigger] frames[k].seq <= u32::MAX - MAX_GAP,
        forall|k: int| 0 <= k < frames.len() ==> !is_late(#[trigger] frames[k].seq, push_all(v, frames.take(k)).1.next_seq),
        forall|a: int, b: int| 0 <= a < b < frames.len() ==> #[trigger] frames[a].seq != #[trigger] frames[b].seq,
        forall|k: int, i: int| 0 <= k < frames.len() && 0 <= i < v.frames.len() ==> #[trigger] v.frames[i].seq != #[trigger] frames[k].seq,
    ensures
        (push_all(v, frames).0 + push_all(v, frames).1.frames).to_multiset()
            == v.frames.to_multiset().add(frames.to_multiset()),
        push_all(v, frames).0.len() + BUFFER_DEPTH > v.frames.len() + frames.len(),
        jitter_wf(push_all(v, frames).1),
    decreases frames.len(),
{
    broadcast use vstd::multiset::group_multiset_axioms, vstd::seq_lib::lemma_multiset_commutative;
    if frames.len() == 0 {
        assert(push_all(v, frames).0 + push_all(v, frames).1.frames =~= v.frames);
        vstd::seq_lib::to_multiset_len(frames);
        vstd::multiset::lemma_multiset_empty_len(frames.to_multiset());
        assert(v.frames.to_multiset().add(frames.to_multiset()) =~= v.frames.to_multiset());
    } else {
        let n = frames.len() - 1;
        let init = frames.drop_last();
        let f = frames.last();
        assert(f == frames[n]);
        assert forall|k: int| 0 <= k < init.len() implies !is_late(#[trigger] init[k].seq, push_all(v, init.take(k)).1.next_seq) by {
            assert(init.take(k) =~= frames.take(k));
            assert(init[k] == frames[k]);
        }
        assert forall|k: int| 0 <= k < init.len() implies #[trigger] init[k].seq <= u32::MAX - MAX_GAP by {
            assert(init[k] == frames[k]);
        }
        assert forall|a: int, b: int| 0 <= a < b < init.len() implies #[trigger] init[a].seq != #[trigger] init[b].seq by {
            assert(init[a] == frames[a] && init[b] == frames[b]);
        }
        assert forall|k: int, i: int| 0 <= k < init.len() && 0 <= i < v.frames.len() implies #[trigger] v.frames[i].seq != #[trigger] init[k].seq by {
            assert(init[k] == frames[k]);
        }
        lemma_pushes_lose_nothing(v, init);
        let (outs, w) = push_all(v, init);
        assert(frames.take(n) =~= init);
        assert forall|i: int| 0 <= i < w.frames.len() implies #[trigger] w.frames[i].seq != f.seq by {
            let x = w.frames[i];
            assert((outs + w.frames)[outs.len() + i] == x);
            vstd::seq_lib::to_multiset_contains(outs + w.frames, x);
            assert((outs + w.frames).contains(x));
            vstd::seq_lib::to_multiset_contains(v.frames, x);
            vstd::seq_lib::to_multiset_contains(init, x);
            if v.frames.contains(x) {
                let y = choose|y: int| 0 <= y < v.frames.len() && v.frames[y] == x;
                assert(v.frames[y].seq != frames[n].seq);
            } else {
                assert(init.contains(x));
                let y = choose|y: int| 0 <= y < init.len() && init[y] == x;
                assert(frames[y].seq != frames[n].seq);
            }
        }
        lemma_push_keeps_every_frame(w, f);
        lemma_push_keeps_wf(w, f);
        lemma_push_releases_in_order(w, f);
        let (more, u) = push_spec(w, f);
        vstd::seq_lib::to_multiset_build(init, f);
        assert(init.push(f) =~= frames);
        assert(outs + more + u.frames =~= outs + (more + u.frames));
        let lhs = (outs + more + u.frames).to_multiset();
        let rhs = v.frames.to_multiset().add(frames.to_multiset());
        assert(lhs =~= rhs) by {
            assert forall|x: VoiceFrame| lhs.count(x) == rhs.count(x) by {
                assert(outs.to_multiset().add(w.frames.to_multiset()).count(x)
                    == v.frames.to_multiset().add(init.to_multiset()).count(x));
                assert((more + u.frames).to_multiset().count(x) == w.frames.to_multiset().insert(f).count(x));
            }
        }
        vstd::seq_lib::to_multiset_len(outs + w.frames);
        vstd::seq_lib::to_multiset_len(more + u.frames);
        vstd::seq_lib::to_multiset_len(v.frames);
        vstd::seq_lib::to_multiset_len(init);
        vstd::seq_lib::to_multiset_len(w.frames);
    }
}

/// A frame more than MAX_GAP behind the next expected seq is dropped: nothing
/// is released and the buffer is unchanged.
pub proof fn lemma_late_frame_dropped(v: JitterView, f: VoiceFrame)
    requires
        f.seq + MAX_GAP < v.next_seq,
    ensures
        push_spec(v, f).0.len() == 0,
        push_spec(v, f).1 == v,
{
}

/// A frame that is the expected one, pushed into an empty buffer, is released
/// at once and makes its successor the expected one.
pub proof fn lemma_in_order_frame_passes(v: JitterView, f: VoiceFrame)
    requires
        jitter_wf(v),
        v.frames.len() == 0,
        f.seq == v.next_seq,
        f.seq <= u32::MAX - MAX_GAP,
    ensures
        push_spec(v, f).0 == seq![f],
        push_spec(v, f).1.frames.len() == 0,
        push_spec(v, f).1.next_seq == f.seq + 1,
{
    let ins = insert_by_seq(v.frames, f);
    assert(is_insert_pos(v.frames, f.seq, 0));
    assert(ins =~= seq![f]);
    let d1 = drain_ready_spec(ins.drop_first(), (f.seq + 1) as u32);
    assert(ins.drop_first().len() == 0);
    assert(d1.0 =~= Seq::<VoiceFrame>::empty());
    assert(push_spec(v, f).0 =~= seq![f]);
}

/// A sorted sequence has a place for every seq.
pub proof fn lemma_insert_pos_exists(s: Seq<VoiceFrame>, seq: u32)
    requires
        sorted_by_seq(s),
    ensures
        exists|i: int| is_insert_pos(s, seq, i),
    decreases s.len(),
{
    if s.len() == 0 {
        assert(is_insert_pos(s, seq, 0));
    } else {
        let t = s.drop_last();
        lemma_insert_pos_exists(t, seq);
        let k = choose|i: int| is_insert_pos(t, seq, i);
        assert forall|j: int| 0 <= j < t.len() implies t[j] == s[j] by {}
        if k < t.len() {
            assert(s[t.len() as int].seq > s[k].seq);
            assert forall|j: int| k <= j < s.len() implies s[j].seq >= seq by {
                if j < t.len() {
                    assert(t[j].seq >= seq);
                }
            }
            assert(is_insert_pos(s, seq, k));
        } else if s.last().seq < seq {
            assert forall|j: int| 0 <= j < s.len() implies s[j].seq < seq by {
                if j < t.len() {
                    assert(t[j].seq < seq);
                }
            }
            assert(is_insert_pos(s, seq, s.len() as int));
        } else {
            assert forall|j: int| 0 <= j < k implies s[j].seq < seq by {
                assert(t[j].seq < seq);
            }
            assert(is_insert_pos(s, seq, k));
        }
    }
}

/// Putting a frame in its place keeps the frames sorted, holds the frame, and
/// adds at most one frame.
pub proof fn lemma_insert_by_seq(s: Seq<VoiceFrame>, f: VoiceFrame)
    requires
        sorted_by_seq(s),
        forall|i: int| 0 <= i < s.len() ==> s[i].seq <= u32::MAX - MAX_GAP,
        f.seq <= u32::MAX - MAX_GAP,
    ensures
        sorted_by_seq(insert_by_seq(s, f)),
        insert_by_seq(s, f).contains(f),
        insert_by_seq(s, f).len() <= s.len() + 1,
        forall|i: int| 0 <= i < insert_by_seq(s, f).len() ==> insert_by_seq(s, f)[i].seq <= u32::MAX - MAX_GAP,
{
    lemma_insert_pos_exists(s, f.seq);
    let i = insert_pos(s, f.seq);
    assert(is_insert_pos(s, f.seq, i));
    let r = insert_by_seq(s, f);
    if i < s.len() && s[i].seq == f.seq {
        assert(r[i] == f);
    } else {
        assert(r[i] == f);
        assert forall|a: int, b: int| 0 <= a < b < r.len() implies r[a].seq < r[b].seq by {
            if b < i {
            } else if a < i && b == i {
            } else if a < i {
                assert(r[b] == s[b - 1]);
            } else if a == i {
                assert(r[b] == s[b - 1]);
            } else {
                assert(r[a] == s[a - 1]);
                assert(r[b] == s[b - 1]);
            }
        }
    }
}

/// The map holds exactly the frames of `s`, each under its seq.
pub open spec fn keyed_by_seq(m: Map<u32, VoiceFrame>, s: Seq<VoiceFrame>) -> bool {
    &&& m.dom().finite()
    &&& m.len() == s.len()
    &&& forall|i: int| 0 <= i < s.len() ==> #[trigger] m.contains_key(s[i].seq) && m[s[i].seq] == s[i]
    &&& forall|k: u32| #[trigger] m.contains_key(k) ==> exists|i: int| 0 <= i < s.len() && s[i].seq == k
}

/// Putting a frame in the map under its seq matches putting it in its
/// place among the frames.
proof fn lemma_keyed_insert(m: Map<u32, VoiceFrame>, s: Seq<VoiceFrame>, f: VoiceFrame)
    requires
        sorted_by_seq(s),
        keyed_by_seq(m, s),
    ensures
        keyed_by_seq(m.insert(f.seq, f), insert_by_seq(s, f)),
{
    lemma_insert_pos_exists(s, f.seq);
    let i = insert_pos(s, f.seq);
    assert(is_insert_pos(s, f.seq, i));
    let m2 = m.insert(f.seq, f);
    let ins = insert_by_seq(s, f);
    if i < s.len() && s[i].seq == f.seq {
        assert(m.contains_key(s[i].seq));
        assert(m2.dom() =~= m.dom());
        assert(ins == s.update(i, f));
        assert(m2.len() == ins.len());
        assert forall|j: int| 0 <= j < ins.len() implies #[trigger] m2.contains_key(ins[j].seq) && m2[ins[j].seq] == ins[j] by {
            if j == i {
                assert(ins[j] == f);
            } else {
                assert(ins[j] == s[j]);
                assert(m.contains_key(s[j].seq));
                assert(s[j].seq != f.seq) by {
                    if j < i {
                        assert(s[j].seq < s[i].seq);
                    } else {
                        assert(s[i].seq < s[j].seq);
                    }
                }
            }
        }
        assert forall|k: u32| #[trigger] m2.contains_key(k) implies exists|j: int| 0 <= j < ins.len() && ins[j].seq == k by {
            assert(m.contains_key(k));
            let j = choose|j: int| 0 <= j < s.len() && s[j].seq == k;
            assert(ins[j].seq == k);
        }
    } else {
        assert(!m.contains_key(f.seq)) by {
            if m.contains_key(f.seq) {
                let j = choose|j: int| 0 <= j < s.len() && s[j].seq == f.seq;
                if j < i {
                } else {
                    assert(s[i].seq >= f.seq);
                    if j > i {
                        assert(s[i].seq < s[j].seq);
                    }
                }
            }
        }
        assert(m2.len() == m.len() + 1);
        assert(ins == s.insert(i, f));
        assert forall|j: int| 0 <= j < ins.len() implies #[trigger] m2.contains_key(ins[j].seq) && m2[ins[j].seq] == ins[j] by {
            if j < i {
                assert(ins[j] == s[j]);
                assert(m.contains_key(s[j].seq));
                assert(s[j].seq < f.seq);
            } else if j == i {
                assert(ins[j] == f);
            } else {
                assert(ins[j] == s[j - 1]);
                assert(m.contains_key(s[j - 1].seq));
                assert(s[j - 1].seq >= f.seq);
                assert(s[j - 1].seq != f.seq) by {
                    if j - 1 > i {
                        assert(s[i].seq < s[j - 1].seq);
                    }
                }
            }
        }
        assert forall|k: u32| #[trigger] m2.contains_key(k) implies exists|j: int| 0 <= j < ins.len() && ins[j].seq == k by {
            if k == f.seq {
                assert(ins[i].seq == k);
            } else {
                assert(m.contains_key(k));
                let j = choose|j: int| 0 <= j < s.len() && s[j].seq == k;
                if j < i {
                    assert(ins[j].seq == k);
                } else {
                    assert(ins[j + 1].seq == k);
                }
            }
        }
    }
}

/// The first frame's seq is the map's smallest key; taking it out of the
/// map matches dropping the first frame.
proof fn lemma_keyed_drop_first(m: Map<u32, VoiceFrame>, s: Seq<VoiceFrame>)
    requires
        sorted_by_seq(s),
        keyed_by_seq(m, s),
        s.len() > 0,
    ensures
        m.contains_key(s[0].seq),
        m[s[0].seq] == s[0],
        forall|k: u32| #[trigger] m.contains_key(k) ==> s[0].seq <= k,
        keyed_by_seq(m.remove(s[0].seq), s.drop_first()),
{
    assert(m.contains_key(s[0].seq));
    assert forall|k: u32| #[trigger] m.contains_key(k) implies s[0].seq <= k by {
        let j = choose|j: int| 0 <= j < s.len() && s[j].seq == k;
        if j > 0 {
            assert(s[0].seq < s[j].seq);
        }
    }
    let m2 = m.remove(s[0].seq);
    let t = s.drop_first();
    assert forall|j: int| 0 <= j < t.len() implies #[trigger] m2.contains_key(t[j].seq) && m2[t[j].seq] == t[j] by {
        assert(t[j] == s[j + 1]);
        assert(s[0].seq < s[j + 1].seq);
        assert(m.contains_key(s[j + 1].seq));
    }
    assert forall|k: u32| #[trigger] m2.contains_key(k) implies exists|j: int| 0 <= j < t.len() && t[j].seq == k by {
        assert(m.contains_key(k));
        let j = choose|j: int| 0 <= j < s.len() && s[j].seq == k;
        assert(j != 0);
        assert(t[j - 1].seq == k);
    }
}

pub struct JitterBuffer {
    /// seq -> frame
    buf: BTreeMap<u32, VoiceFrame>,
    next_seq: u32,
    /// The buffered frames in order of seq.
    frames: Ghost<Seq<VoiceFrame>>,
}

impl View for JitterBuffer {
    type V = JitterView;

    closed spec fn view(&self) -> JitterView {
        JitterView { frames: self.frames@, next_seq: self.next_seq }
    }
}

/// What every buffer holds: frames in strictly increasing seq, fewer than
/// BUFFER_DEPTH of them, none so close to the top of the seq range that a
/// successor could not be counted.
pub open spec fn jitter_wf(v: JitterView) -> bool {
    &&& sorted_by_seq(v.frames)
    &&& v.frames.len() < BUFFER_DEPTH
    &&& forall|i: int| 0 <= i < v.frames.len() ==> v.frames[i].seq <= u32::MAX - MAX_GAP
}

/// `BTreeMap::first_key_value`, keeping the key: the smallest key, `None`
/// when the map is empty.
#[verifier::external_body]
fn first_seq(m: &BTreeMap<u32, VoiceFrame>) -> (r: Option<u32>)
    ensures
        match r {
            Some(k) => m@.contains_key(k) && forall|j: u32| #[trigger] m@.contains_key(j) ==> k <= j,
            None => forall|j: u32| !(#[trigger] m@.contains_key(j)),
        },
{
    m.first_key_value().map(|(k, _)| *k)
}

/// `BTreeMap::pop_first`: takes out the entry with the smallest key, if
/// the map is not empty.
#[verifier::external_body]
fn pop_first_frame(m: &mut BTreeMap<u32, VoiceFrame>) -> (r: Option<(u32, VoiceFrame)>)
    ensures
        match r {
            Some(e) => old(m)@.contains_key(e.0) && old(m)@[e.0] == e.1
                && (forall|j: u32| #[trigger] old(m)@.contains_key(j) ==> e.0 <= j)
                && final(m)@ == old(m)@.remove(e.0),
            None => final(m)@ == old(m)@ && forall|j: u32| !(#[trigger] old(m)@.contains_key(j)),
        },
{
    m.pop_first()
}

impl JitterBuffer {
    /// The map holds exactly the buffered frames, each under its seq.
    pub closed spec fn map_matches(&self) -> bool {
        keyed_by_seq(self.buf@, self.frames@)
    }

    pub open spec fn wf(&self) -> bool {
        jitter_wf(self@) && self.map_matches()
    }

    pub fn new() -> (b: Self)
        ensures
            b@.frames == Seq::<VoiceFrame>::empty(),
            b@.next_seq == 0,
            b.wf(),
    {
        let b = JitterBuffer { buf: BTreeMap::new(), next_seq: 0, frames: Ghost(Seq::empty()) };
        proof {
            assert(b.buf@.dom() =~= Set::<u32>::empty());
        }
        b
    }

    /// Inserts a frame and returns the frames that are now ready to play.
    pub fn push(&mut self, frame: VoiceFrame) -> (ready: Vec<VoiceFrame>)
        requires
            old(self).wf(),
            frame.seq <= u32::MAX - MAX_GAP,
        ensures
            final(self).wf(),
            (ready@, final(self)@) == push_spec(old(self)@, frame),
    {
        let seq = frame.seq;
        if seq + MAX_GAP < self.next_seq {
            return Vec::new();
        }
        proof {
            lemma_keyed_insert(self.buf@, self.frames@, frame);
            lemma_insert_by_seq(self.frames@, frame);
        }
        self.frames = Ghost(insert_by_seq(self.frames@, frame));
        self.buf.insert(seq, frame);
        let ghost before_trim = self.frames@;
        while self.buf.len() > BUFFER_DEPTH
            invariant
                trim_to_depth(self.frames@) == trim_to_depth(before_trim),
                self.next_seq == old(self).next_seq,
                sorted_by_seq(self.frames@),
                forall|i: int| 0 <= i < self.frames@.len() ==> self.frames@[i].seq <= u32::MAX - MAX_GAP,
                keyed_by_seq(self.buf@, self.frames@),
                self.frames@.len() <= BUFFER_DEPTH + 1,
            decreases self.frames@.len(),
        {
            let ghost prev = self.frames@;
            proof {
                lemma_keyed_drop_first(self.buf@, prev);
            }
            let _ = pop_first_frame(&mut self.buf);
            self.frames = Ghost(prev.drop_first());
            proof {
                assert(trim_to_depth(prev.drop_first()) =~= trim_to_depth(prev));
            }
        }
        assert(self.frames@ =~= trim_to_depth(before_trim));
        self.drain_ready()
    }

    /// Releases the frames at the front that are ready.
    fn drain_ready(&mut self) -> (ready: Vec<VoiceFrame>)
        requires
            sorted_by_seq(old(self).frames@),
            old(self).frames@.len() <= BUFFER_DEPTH,
            forall|i: int| 0 <= i < old(self).frames@.len() ==> old(self).frames@[i].seq <= u32::MAX - MAX_GAP,
            keyed_by_seq(old(self).buf@, old(self).frames@),
        ensures
            (ready@, final(self).frames@, final(self).next_seq) == drain_ready_spec(old(self).frames@, old(self).next_seq),
            final(self).wf(),
    {
        let ghost goal = drain_ready_spec(self.frames@, self.next_seq);
        let mut ready: Vec<VoiceFrame> = Vec::new();
        loop
            invariant
                sorted_by_seq(self.frames@),
                self.frames@.len() <= BUFFER_DEPTH,
                forall|i: int| 0 <= i < self.frames@.len() ==> self.frames@[i].seq <= u32::MAX - MAX_GAP,
                keyed_by_seq(self.buf@, self.frames@),
                ready@ + drain_ready_spec(self.frames@, self.next_seq).0 == goal.0,
                drain_ready_spec(self.frames@, self.next_seq).1 == goal.1,
                drain_ready_spec(self.frames@, self.next_seq).2 == goal.2,
                ready@.len() > 0 ==> self.frames@.len() < BUFFER_DEPTH,
            ensures
                sorted_by_seq(self.frames@),
                self.frames@.len() <= BUFFER_DEPTH,
                forall|i: int| 0 <= i < self.frames@.len() ==> self.frames@[i].seq <= u32::MAX - MAX_GAP,
                keyed_by_seq(self.buf@, self.frames@),
                ready@ + drain_ready_spec(self.frames@, self.next_seq).0 == goal.0,
                drain_ready_spec(self.frames@, self.next_seq).1 == goal.1,
                drain_ready_spec(self.frames@, self.next_seq).2 == goal.2,
                ready@.len() > 0 ==> self.frames@.len() < BUFFER_DEPTH,
                self.frames@.len() == 0 || !(self.frames@[0].seq == self.next_seq || self.frames@.len() >= BUFFER_DEPTH),
            decreases self.frames@.len(),
        {
            let ghost prev = self.frames@;
            proof {
                if prev.len() > 0 {
                    lemma_keyed_drop_first(self.buf@, prev);
                }
            }
            let first = match first_seq(&self.buf) {
                Some(k) => k,
                None => {
                    proof {
                        if prev.len() > 0 {
                            assert(self.buf@.contains_key(prev[0].seq));
                        }
                    }
                    break;
                },
            };
            proof {
                assert(prev.len() > 0) by {
                    let j = choose|j: int| 0 <= j < prev.len() && prev[j].seq == first;
                }
                assert(first <= prev[0].seq);
                assert(prev[0].seq <= first);
            }
            if first == self.next_seq || self.buf.len() >= BUFFER_DEPTH {
                let ghost prev_ready = ready@;
                let ghost r = drain_ready_spec(prev.drop_first(), (prev[0].seq + 1) as u32);
                let frame = match self.buf.remove(&first) {
                    Some(f) => f,
                    None => break,
                };
                self.frames = Ghost(prev.drop_first());
                self.next_seq = frame.seq + 1;
                ready.push(frame);
                proof {
                    assert(ready@ + r.0 =~= prev_ready + (seq![prev[0]] + r.0));
                }
            } else {
                break;
            }
        }
        proof {
            assert(drain_ready_spec(self.frames@, self.next_seq).0 =~= Seq::<VoiceFrame>::empty());
            assert(ready@ =~= goal.0);
        }
        ready
    }
}

impl Default for JitterBuffer {
    fn default() -> (b: Self)
        ensures
            b@.frames == Seq::<VoiceFrame>::empty(),
            b@.next_seq == 0,
            b.wf(),
    {
        Self::new()
    }
}

} // verus!
