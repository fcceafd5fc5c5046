use grand_cross::jitter::JitterBuffer;
use grand_cross::VoiceFrame;

fn frame(seq: u32) -> VoiceFrame {
    VoiceFrame {
        player_id: "p".to_string(),
        opus_bytes: vec![seq as u8],
        duration_ms: 20,
        muted: false,
        vad_active: true,
        seq,
    }
}

fn seqs(v: &[VoiceFrame]) -> Vec<u32> {
    v.iter().map(|f| f.seq).collect()
}

#[test]
fn in_order_frames_pass_straight_through() {
    let mut b = JitterBuffer::new();
    for s in 0..6 {
        assert_eq!(seqs(&b.push(frame(s))), vec![s]);
    }
}

#[test]
fn out_of_order_frames_are_reordered() {
    let mut b = JitterBuffer::new();
    assert!(b.push(frame(1)).is_empty());
    assert!(b.push(frame(2)).is_empty());
    assert_eq!(seqs(&b.push(frame(0))), vec![0, 1, 2]);
    assert_eq!(seqs(&b.push(frame(3))), vec![3]);
}

#[test]
fn full_buffer_releases_across_a_gap() {
    let mut b = JitterBuffer::new();
    assert!(b.push(frame(2)).is_empty());
    assert!(b.push(frame(3)).is_empty());
    assert!(b.push(frame(5)).is_empty());
    // the fourth frame fills the buffer: the oldest leaves with its successors
    assert_eq!(seqs(&b.push(frame(6))), vec![2, 3]);
    assert_eq!(seqs(&b.push(frame(4))), vec![4, 5, 6]);
}

#[test]
fn late_frame_is_dropped() {
    let mut b = JitterBuffer::new();
    for s in 0..20 {
        b.push(frame(s));
    }
    // next expected is 20; 9 + 10 < 20
    assert!(b.push(frame(9)).is_empty());
    assert_eq!(seqs(&b.push(frame(20))), vec![20]);
}

#[test]
fn duplicate_seq_replaces_buffered_frame() {
    let mut b = JitterBuffer::new();
    assert!(b.push(frame(1)).is_empty());
    let mut f = frame(1);
    f.opus_bytes = vec![0xEE];
    assert!(b.push(f).is_empty());
    let out = b.push(frame(0));
    assert_eq!(seqs(&out), vec![0, 1]);
    assert_eq!(out[1].opus_bytes, vec![0xEE]);
}

#[test]
fn default_starts_at_zero() {
    let mut b = JitterBuffer::default();
    assert!(b.push(frame(1)).is_empty());
    assert_eq!(seqs(&b.push(frame(0))), vec![0, 1]);
}

#[test]
fn a_run_of_pushes_releases_each_frame_at_most_once() {
    let mut b = JitterBuffer::new();
    let pushed = [3u32, 1, 0, 2, 9, 5, 4, 12, 11, 7, 8, 6, 10, 14, 13];
    let mut released: Vec<u32> = Vec::new();
    for s in pushed {
        released.extend(seqs(&b.push(frame(s))));
    }
    let mut sorted = released.clone();
    sorted.sort();
    sorted.dedup();
    assert_eq!(sorted.len(), released.len());
    assert!(released.iter().all(|s| pushed.contains(s)));
    // a frame ahead of the expected one waits in the buffer
    let mut c = JitterBuffer::new();
    assert_eq!(seqs(&c.push(frame(0))), vec![0]);
    assert_eq!(seqs(&c.push(frame(9))), Vec::<u32>::new());
}

#[test]
fn frames_leave_in_order_across_calls_and_none_is_lost() {
    let mut b = JitterBuffer::new();
    let pushed = [2u32, 0, 1, 3, 5, 4, 6, 9, 7, 8];
    let expected: [&[u32]; 10] = [&[], &[0], &[1, 2], &[3], &[], &[4, 5], &[6], &[], &[7], &[8, 9]];
    let mut released: Vec<u32> = Vec::new();
    for (s, want) in pushed.iter().zip(expected.iter()) {
        let out = seqs(&b.push(frame(*s)));
        assert_eq!(&out[..], *want);
        released.extend(out);
    }
    assert_eq!(released, (0..10).collect::<Vec<u32>>());
}

#[test]
fn a_frame_older_than_a_released_one_can_still_leave_later() {
    // frame 6 is pushed after 9 has left; it is within the gap, so it is
    // kept and leaves once the buffer fills
    let mut b = JitterBuffer::new();
    let mut released: Vec<u32> = Vec::new();
    for s in [3u32, 1, 0, 2, 9, 5, 4, 12, 11, 7, 8, 6, 10] {
        released.extend(seqs(&b.push(frame(s))));
    }
    assert_eq!(released, vec![0, 1, 2, 3, 4, 5, 7, 8, 9, 6]);
}
