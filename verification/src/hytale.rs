//! Hytale: the framing and the per-connection decisions of a Hytale TCP
//! connection (the same wire format and lifecycle as the Minecraft
//! adapter).
//!
//! Each frame is a 2-byte little-endian length followed by a CRP packet of
//! that many bytes. The first packet of a connection must be a Join; its
//! player is then registered. The socket work runs outside this crate.

use vstd::prelude::*;
use vstd::bytes::{spec_u16_from_le_bytes, spec_u16_to_le_bytes, u16_from_le_bytes, u16_to_le_bytes, lemma_auto_spec_u16_to_from_le_bytes};
use crate::crp::{CrpEventType, CrpPacket};
use crate::dispatch::{player_id_or, player_id_or_fallback};

verus! {

/// The largest frame a connection accepts.
pub const MAX_FRAME_LEN: usize = 65_000;

pub struct HytaleAdapter {
    pub port: u16,
}

impl HytaleAdapter {
    pub fn new(port: u16) -> (a: Self)
        ensures
            a.port == port,
    {
        Self { port }
    }
}

/// The length a frame prefix announces, when it is acceptable: between 1
/// and MAX_FRAME_LEN.
pub open spec fn frame_len_spec(prefix: Seq<u8>) -> Option<usize> {
    let n = spec_u16_from_le_bytes(prefix) as usize;
    if n == 0 || n > MAX_FRAME_LEN {
        None
    } else {
        Some(n)
    }
}

/// Reads a frame's 2-byte length prefix; `None` for an empty or an
/// oversized frame.
pub fn frame_len(prefix: &[u8]) -> (r: Option<usize>)
    requires
        prefix@.len() == 2,
    ensures
        r == frame_len_spec(prefix@),
{
    let len = u16_from_le_bytes(prefix) as usize;
    if len == 0 || len > MAX_FRAME_LEN {
        None
    } else {
        Some(len)
    }
}

/// The 2-byte length prefix written before outbound bytes of length `len`
/// (the length truncated to 16 bits).
pub fn frame_prefix(len: usize) -> (r: Vec<u8>)
    ensures
        r@ == spec_u16_to_le_bytes(len as u16),
{
    u16_to_le_bytes(len as u16)
}

/// A frame prefix written for an acceptable length reads back as that
/// length.
pub proof fn lemma_frame_len_roundtrip(len: usize)
    requires
        1 <= len <= MAX_FRAME_LEN,
    ensures
        frame_len_spec(spec_u16_to_le_bytes(len as u16)) == Some(len),
{
    lemma_auto_spec_u16_to_from_le_bytes();
    let x = len as u16;
    assert(x as usize == len) by (bit_vector)
        requires
            x == len as u16,
            len <= 65000,
    ;
    assert(spec_u16_to_le_bytes(x).len() == 2);
    assert(spec_u16_from_le_bytes(spec_u16_to_le_bytes(x)) == x);
}

/// Checks the first packet of a TCP connection: it must be a Join. Returns
/// the packet and its player: the payload's "player_id", or `prefix` and the
/// sequence number.
pub fn tcp_join(pkt: CrpPacket, prefix: &str) -> (r: Option<(CrpPacket, String)>)
    ensures
        pkt.event_type != CrpEventType::Join ==> r is None,
        pkt.event_type == CrpEventType::Join ==> (r matches Some((p, pid)) && p@ == pkt@
            && pid@ == player_id_or_fallback(pkt.payload@, prefix@, pkt.seq)),
{
    if pkt.event_type != CrpEventType::Join {
        return None;
    }
    let pid = player_id_or(pkt.payload.as_slice(), prefix, pkt.seq);
    Some((pkt, pid))
}

/// The first-packet check of a Hytale connection: a player with no id
/// gets "hytale_" and the sequence number.
pub fn hytale_join(pkt: CrpPacket) -> (r: Option<(CrpPacket, String)>)
    ensures
        pkt.event_type != CrpEventType::Join ==> r is None,
        pkt.event_type == CrpEventType::Join ==> (r matches Some((p, pid)) && p@ == pkt@
            && pid@ == player_id_or_fallback(pkt.payload@, "hytale_"@, pkt.seq)),
{
    tcp_join(pkt, "hytale_")
}

} // verus!
