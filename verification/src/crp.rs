//! CubeRelay Packet (CRP): the unified cross-platform envelope.
//!
//! Wire format (little-endian):
//!   [0..2]   magic:       0xCB 0x01
//!   [2]      version:     u8
//!   [3]      platform:    u8  (Platform)
//!   [4..12]  session_id:  u64
//!   [12..16] seq:         u32
//!   [16]     event_type:  u8  (CrpEventType)
//!   [17..19] payload_len: u16
//!   [19..]   payload:     [u8; payload_len]

use vstd::prelude::*;
use vstd::bytes::*;
use vstd::slice::*;
use crate::platform::{Platform, platform_code, platform_from_code, lemma_platform_code_roundtrip};

verus! {

pub const CRP_MAGIC: [u8; 2] = [0xCB, 0x01];

pub const CRP_VERSION: u8 = 1;

pub const CRP_HEADER_LEN: usize = 19;

/// The kind of event a packet carries. On the wire each kind is one byte,
/// from 0x01 (Move) to 0x09 (SessionState), in the order listed here.
#[derive(Debug, Clone, Copy, PartialEq, Eq, Structural)]
pub enum CrpEventType {
    /// position + rotation
    Move,
    /// text message
    Chat,
    /// Opus audio frame
    Voice,
    /// player joined session
    Join,
    /// player left session
    Leave,
    /// keepalive
    Ping,
    /// keepalive ack
    Pong,
    /// platform-specific game action
    Action,
    /// full roster broadcast
    SessionState,
}

/// The wire byte of an event type.
pub open spec fn event_code(e: CrpEventType) -> u8 {
    match e {
        CrpEventType::Move => 0x01,
        CrpEventType::Chat => 0x02,
        CrpEventType::Voice => 0x03,
        CrpEventType::Join => 0x04,
        CrpEventType::Leave => 0x05,
        CrpEventType::Ping => 0x06,
        CrpEventType::Pong => 0x07,
        CrpEventType::Action => 0x08,
        CrpEventType::SessionState => 0x09,
    }
}

/// The event type that a wire byte stands for, if any.
pub open spec fn event_from_code(b: u8) -> Option<CrpEventType> {
    if b == 0x01 {
        Some(CrpEventType::Move)
    } else if b == 0x02 {
        Some(CrpEventType::Chat)
    } else if b == 0x03 {
        Some(CrpEventType::Voice)
    } else if b == 0x04 {
        Some(CrpEventType::Join)
    } else if b == 0x05 {
        Some(CrpEventType::Leave)
    } else if b == 0x06 {
        Some(CrpEventType::Ping)
    } else if b == 0x07 {
        Some(CrpEventType::Pong)
    } else if b == 0x08 {
        Some(CrpEventType::Action)
    } else if b == 0x09 {
        Some(CrpEventType::SessionState)
    } else {
        None
    }
}

/// Every event type's code decodes back to that event type, and a byte that
/// decodes to an event type is that event type's code.
pub proof fn lemma_event_code_roundtrip(e: CrpEventType, b: u8)
    ensures
        event_from_code(event_code(e)) == Some(e),
        event_from_code(b) == Some(e) ==> event_code(e) == b,
{
}

impl CrpEventType {
    /// The wire byte of this event type.
    pub fn to_byte(&self) -> (b: u8)
        ensures
            b == event_code(*self),
    {
        match self {
            CrpEventType::Move => 0x01,
            CrpEventType::Chat => 0x02,
            CrpEventType::Voice => 0x03,
            CrpEventType::Join => 0x04,
            CrpEventType::Leave => 0x05,
            CrpEventType::Ping => 0x06,
            CrpEventType::Pong => 0x07,
            CrpEventType::Action => 0x08,
            CrpEventType::SessionState => 0x09,
        }
    }

    /// The event type whose wire byte is `b`; `None` for any other byte.
    pub fn from_byte(b: u8) -> (e: Option<CrpEventType>)
        ensures
            e == event_from_code(b),
    {
        match b {
            0x01 => Some(CrpEventType::Move),
            0x02 => Some(CrpEventType::Chat),
            0x03 => Some(CrpEventType::Voice),
            0x04 => Some(CrpEventType::Join),
            0x05 => Some(CrpEventType::Leave),
            0x06 => Some(CrpEventType::Ping),
            0x07 => Some(CrpEventType::Pong),
            0x08 => Some(CrpEventType::Action),
            0x09 => Some(CrpEventType::SessionState),
            _ => None,
        }
    }
}

/// A packet in the unified envelope.
#[derive(Debug, Clone)]
pub struct CrpPacket {
    pub version: u8,
    pub platform: Platform,
    pub session_id: u64,
    pub seq: u32,
    pub event_type: CrpEventType,
    pub payload: Vec<u8>,
}

/// The mathematical value of a packet: its header fields and its payload
/// bytes.
pub struct CrpPacketView {
    pub version: u8,
    pub platform: Platform,
    pub session_id: u64,
    pub seq: u32,
    pub event_type: CrpEventType,
    pub payload: Seq<u8>,
}

impl View for CrpPacket {
    type V = CrpPacketView;

    open spec fn view(&self) -> CrpPacketView {
        CrpPacketView {
            version: self.version,
            platform: self.platform,
            session_id: self.session_id,
            seq: self.seq,
            event_type: self.event_type,
            payload: self.payload@,
        }
    }
}

/// The bytes that encode a packet. The length field holds the payload's
/// length truncated to 16 bits.
pub open spec fn crp_encode(p: CrpPacketView) -> Seq<u8> {
    seq![0xCBu8, 0x01u8, p.version, platform_code(p.platform)]
        + spec_u64_to_le_bytes(p.session_id)
        + spec_u32_to_le_bytes(p.seq)
        + seq![event_code(p.event_type)]
        + spec_u16_to_le_bytes(p.payload.len() as u16)
        + p.payload
}

/// The payload length that the header of `b` announces.
pub open spec fn crp_announced_len(b: Seq<u8>) -> nat {
    spec_u16_from_le_bytes(b.subrange(17, 19)) as nat
}

/// The packet that `b` begins with, if `b` begins with a well-formed one:
/// a full header with the magic bytes, a known platform and event byte, and
/// at least as many payload bytes as the header announces. Bytes past the
/// announced payload are ignored.
pub open spec fn crp_decode(b: Seq<u8>) -> Option<CrpPacketView> {
    if b.len() < 19 || b[0] != 0xCBu8 || b[1] != 0x01u8 {
        None
    } else {
        match (platform_from_code(b[3]), event_from_code(b[16])) {
            (Some(platform), Some(event_type)) => {
                let n = crp_announced_len(b);
                if b.len() < 19 + n {
                    None
                } else {
                    Some(
                        CrpPacketView {
                            version: b[2],
                            platform,
                            session_id: spec_u64_from_le_bytes(b.subrange(4, 12)),
                            seq: spec_u32_from_le_bytes(b.subrange(12, 16)),
                            event_type,
                            payload: b.subrange(19, 19 + n as int),
                        },
                    )
                }
            },
            _ => None,
        }
    }
}

/// An encoded packet is 19 header bytes followed by its payload.
pub proof fn lemma_encode_len(p: CrpPacketView)
    ensures
        crp_encode(p).len() == 19 + p.payload.len(),
        crp_encode(p).subrange(19, 19 + p.payload.len() as int) == p.payload,
{
    lemma_auto_spec_u64_to_from_le_bytes();
    lemma_auto_spec_u32_to_from_le_bytes();
    lemma_auto_spec_u16_to_from_le_bytes();
    assert(crp_encode(p).subrange(19, 19 + p.payload.len() as int) =~= p.payload);
}

/// Decoding what `encode` wrote gives back the packet, whenever the payload
/// fits the 16-bit length field.
pub proof fn lemma_decode_encode(p: CrpPacketView)
    requires
        p.payload.len() <= 0xFFFF,
    ensures
        crp_decode(crp_encode(p)) == Some(p),
{
    lemma_auto_spec_u64_to_from_le_bytes();
    lemma_auto_spec_u32_to_from_le_bytes();
    lemma_auto_spec_u16_to_from_le_bytes();
    lemma_platform_code_roundtrip(p.platform, 0);
    lemma_event_code_roundtrip(p.event_type, 0);
    let b = crp_encode(p);
    let h = seq![0xCBu8, 0x01u8, p.version, platform_code(p.platform)];
    let s8 = spec_u64_to_le_bytes(p.session_id);
    let s4 = spec_u32_to_le_bytes(p.seq);
    let l2 = spec_u16_to_le_bytes(p.payload.len() as u16);
    assert(b.subrange(4, 12) =~= s8);
    assert(b.subrange(12, 16) =~= s4);
    assert(b.subrange(17, 19) =~= l2);
    assert(b[16] == event_code(p.event_type));
    assert(b.subrange(19, 19 + p.payload.len() as int) =~= p.payload);
}

/// A packet that decodes from `b` encodes back to exactly the bytes of `b`
/// that it was read from: the header and the announced payload.
pub proof fn lemma_encode_decode(b: Seq<u8>)
    requires
        crp_decode(b) is Some,
    ensures
        crp_encode(crp_decode(b).unwrap()) == b.subrange(0, 19 + crp_announced_len(b) as int),
{
    lemma_auto_spec_u64_to_from_le_bytes();
    lemma_auto_spec_u32_to_from_le_bytes();
    lemma_auto_spec_u16_to_from_le_bytes();
    lemma_platform_code_roundtrip(crp_decode(b).unwrap().platform, b[3]);
    lemma_event_code_roundtrip(crp_decode(b).unwrap().event_type, b[16]);
    let p = crp_decode(b).unwrap();
    let n = crp_announced_len(b);
    assert(spec_u64_to_le_bytes(p.session_id) == b.subrange(4, 12));
    assert(spec_u32_to_le_bytes(p.seq) == b.subrange(12, 16));
    assert(p.payload.len() == n);
    assert((p.payload.len() as u16) == spec_u16_from_le_bytes(b.subrange(17, 19)));
    assert(spec_u16_to_le_bytes(p.payload.len() as u16) == b.subrange(17, 19));
    assert(crp_encode(p) =~= b.subrange(0, 19 + n as int));
}

/// Bytes that follow a well-formed packet do not change what decodes.
pub proof fn lemma_decode_ignores_trailing(b: Seq<u8>, extra: Seq<u8>)
    requires
        crp_decode(b) is Some,
    ensures
        crp_decode(b + extra) == crp_decode(b),
{
    let c = b + extra;
    assert(c.subrange(4, 12) =~= b.subrange(4, 12));
    assert(c.subrange(12, 16) =~= b.subrange(12, 16));
    assert(c.subrange(17, 19) =~= b.subrange(17, 19));
    assert(c.subrange(19, 19 + crp_announced_len(b) as int) =~= b.subrange(19, 19 + crp_announced_len(b) as int));
}

impl CrpPacket {
    /// Serializes the packet into its wire bytes.
    pub fn encode(&self) -> (buf: Vec<u8>)
        ensures
            buf@ == crp_encode(self@),
    {
        let payload_len = self.payload.len() as u16;
        let mut buf: Vec<u8> = Vec::new();
        buf.push(CRP_MAGIC[0]);
        buf.push(CRP_MAGIC[1]);
        buf.push(self.version);
        buf.push(self.platform.to_byte());
        let sid = u64_to_le_bytes(self.session_id);
        buf.extend_from_slice(sid.as_slice());
        let seq = u32_to_le_bytes(self.seq);
        buf.extend_from_slice(seq.as_slice());
        buf.push(self.event_type.to_byte());
        let len = u16_to_le_bytes(payload_len);
        buf.extend_from_slice(len.as_slice());
        buf.extend_from_slice(self.payload.as_slice());
        assert(buf@ =~= crp_encode(self@));
        buf
    }

    /// Parses a packet from the start of `buf`; `None` if `buf` does not
    /// begin with a well-formed packet.
    pub fn decode(buf: &[u8]) -> (r: Option<CrpPacket>)
        ensures
            match r {
                Some(p) => crp_decode(buf@) == Some(p@),
                None => crp_decode(buf@) is None,
            },
    {
        if buf.len() < CRP_HEADER_LEN {
            return None;
        }
        if buf[0] != CRP_MAGIC[0] || buf[1] != CRP_MAGIC[1] {
            return None;
        }
        let version = buf[2];
        let platform = match Platform::from_byte(buf[3]) {
            Some(p) => p,
            None => return None,
        };
        let session_id = u64_from_le_bytes(slice_subrange(buf, 4, 12));
        let seq = u32_from_le_bytes(slice_subrange(buf, 12, 16));
        let event_type = match CrpEventType::from_byte(buf[16]) {
            Some(e) => e,
            None => return None,
        };
        let payload_len = u16_from_le_bytes(slice_subrange(buf, 17, 19)) as usize;
        if buf.len() < CRP_HEADER_LEN + payload_len {
            return None;
        }
        let payload = slice_to_vec(slice_subrange(buf, CRP_HEADER_LEN, CRP_HEADER_LEN + payload_len));
        let p = CrpPacket { version, platform, session_id, seq, event_type, payload };
        assert(crp_decode(buf@) == Some(p@));
        Some(p)
    }
}

} // verus!
