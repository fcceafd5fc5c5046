//! Roblox: the JSON codec and the per-message decisions of a Roblox
//! WebSocket connection.
//!
//! Inbound:  Roblox JSON text -> CrpPacket -> dispatch
//! Outbound: router bytes (CRP) -> CrpPacket -> Roblox JSON text
//!
//! Per connection: the first message must be a Join with a player_id (its
//! player is then registered); then every text message is parsed as Roblox JSON, every
//! binary message as CRP, a Close ends the connection and a Ping is
//! answered with a Pong. The socket work runs outside this crate.

use vstd::prelude::*;
use vstd::slice::slice_to_vec;
use vstd::utf8::encode_utf8;
use crate::crp::{CrpEventType, CrpPacket, CrpPacketView, CRP_VERSION, crp_decode};
use crate::dispatch::{extract_player_id, player_id_spec};
use crate::json::{JsonValue, JsonView, json_parse, json_serialize, member_text, member_str, member_u64, parse_json, serialize_json, member, member_as_str, member_as_u64};
use crate::platform::{Platform, platform_name};

verus! {

pub struct RobloxAdapter {
    pub port: u16,
}

impl RobloxAdapter {
    pub fn new(port: u16) -> (a: Self)
        ensures
            a.port == port,
    {
        Self { port }
    }
}

/// The event type a Roblox "type" string names. Roblox sends no pong and no
/// session state.
pub open spec fn roblox_event_spec(t: Seq<char>) -> Option<CrpEventType> {
    if t == "move"@ {
        Some(CrpEventType::Move)
    } else if t == "chat"@ {
        Some(CrpEventType::Chat)
    } else if t == "voice"@ {
        Some(CrpEventType::Voice)
    } else if t == "join"@ {
        Some(CrpEventType::Join)
    } else if t == "leave"@ {
        Some(CrpEventType::Leave)
    } else if t == "ping"@ {
        Some(CrpEventType::Ping)
    } else if t == "action"@ {
        Some(CrpEventType::Action)
    } else {
        None
    }
}

/// The Roblox "type" string of an event type.
pub open spec fn roblox_type_name(e: CrpEventType) -> Seq<char> {
    match e {
        CrpEventType::Move => "move"@,
        CrpEventType::Chat => "chat"@,
        CrpEventType::Voice => "voice"@,
        CrpEventType::Join => "join"@,
        CrpEventType::Leave => "leave"@,
        CrpEventType::Ping => "ping"@,
        CrpEventType::Pong => "pong"@,
        CrpEventType::Action => "action"@,
        CrpEventType::SessionState => "session_state"@,
    }
}

/// The Roblox type names read back as the event types they name, for every
/// event type a Roblox client sends; pong and session state, which only the
/// relay sends, are not read.
pub proof fn lemma_roblox_names_roundtrip(e: CrpEventType)
    ensures
        e != CrpEventType::Pong && e != CrpEventType::SessionState
            ==> roblox_event_spec(roblox_type_name(e)) == Some(e),
        e == CrpEventType::Pong || e == CrpEventType::SessionState
            ==> roblox_event_spec(roblox_type_name(e)) is None,
{
    reveal_strlit("move");
    reveal_strlit("chat");
    reveal_strlit("voice");
    reveal_strlit("join");
    reveal_strlit("leave");
    reveal_strlit("ping");
    reveal_strlit("pong");
    reveal_strlit("action");
    reveal_strlit("session_state");
    assert("move"@[0] == 'm');
    assert("chat"@[0] == 'c');
    assert("voice"@[0] == 'v');
    assert("join"@[0] == 'j');
    assert("leave"@[0] == 'l');
    assert("ping"@[0] == 'p' && "ping"@[1] == 'i');
    assert("pong"@[0] == 'p' && "pong"@[1] == 'o');
    assert("action"@[0] == 'a');
    assert("session_state"@[0] == 's');
}

/// The Roblox type names, read and printed: each name a Roblox client
/// sends stands for the event type of that name, "pong" and
/// "session_state" are not read, and each event type prints as its name.
pub proof fn lemma_roblox_type_table()
    ensures
        roblox_event_spec(seq!['m', 'o', 'v', 'e']) == Some(CrpEventType::Move),
        roblox_event_spec(seq!['c', 'h', 'a', 't']) == Some(CrpEventType::Chat),
        roblox_event_spec(seq!['v', 'o', 'i', 'c', 'e']) == Some(CrpEventType::Voice),
        roblox_event_spec(seq!['j', 'o', 'i', 'n']) == Some(CrpEventType::Join),
        roblox_event_spec(seq!['l', 'e', 'a', 'v', 'e']) == Some(CrpEventType::Leave),
        roblox_event_spec(seq!['p', 'i', 'n', 'g']) == Some(CrpEventType::Ping),
        roblox_event_spec(seq!['a', 'c', 't', 'i', 'o', 'n']) == Some(CrpEventType::Action),
        roblox_event_spec(seq!['p', 'o', 'n', 'g']) is None,
        roblox_type_name(CrpEventType::Move) == seq!['m', 'o', 'v', 'e'],
        roblox_type_name(CrpEventType::Chat) == seq!['c', 'h', 'a', 't'],
        roblox_type_name(CrpEventType::Voice) == seq!['v', 'o', 'i', 'c', 'e'],
        roblox_type_name(CrpEventType::Join) == seq!['j', 'o', 'i', 'n'],
        roblox_type_name(CrpEventType::Leave) == seq!['l', 'e', 'a', 'v', 'e'],
        roblox_type_name(CrpEventType::Ping) == seq!['p', 'i', 'n', 'g'],
        roblox_type_name(CrpEventType::Pong) == seq!['p', 'o', 'n', 'g'],
        roblox_type_name(CrpEventType::Action) == seq!['a', 'c', 't', 'i', 'o', 'n'],
{
    reveal_strlit("move");
    reveal_strlit("chat");
    reveal_strlit("voice");
    reveal_strlit("join");
    reveal_strlit("leave");
    reveal_strlit("ping");
    reveal_strlit("pong");
    reveal_strlit("action");
    assert("move"@ =~= seq!['m', 'o', 'v', 'e']);
    assert("chat"@ =~= seq!['c', 'h', 'a', 't']);
    assert("voice"@ =~= seq!['v', 'o', 'i', 'c', 'e']);
    assert("join"@ =~= seq!['j', 'o', 'i', 'n']);
    assert("leave"@ =~= seq!['l', 'e', 'a', 'v', 'e']);
    assert("ping"@ =~= seq!['p', 'i', 'n', 'g']);
    assert("pong"@ =~= seq!['p', 'o', 'n', 'g']);
    assert("action"@ =~= seq!['a', 'c', 't', 'i', 'o', 'n']);
}

/// The payload of a Roblox message: the JSON text of its "data" member
/// (the text of null when it has none).
pub open spec fn data_text(v: JsonView) -> Option<Seq<u8>> {
    match member_text(v, "data"@) {
        Some(t) => Some(t),
        None => json_serialize(JsonView::Null),
    }
}

/// The packet a Roblox JSON message stands for: its "session_id", its "seq"
/// (truncated to 32 bits), its "type" and its "data"; platform Roblox and
/// the current version. `None` when the text is not JSON, a field is
/// missing or of the wrong kind, or the type is unknown.
pub open spec fn roblox_parse_spec(bytes: Seq<u8>) -> Option<CrpPacketView> {
    match json_parse(bytes) {
        Some(v) => match (member_u64(v, "session_id"@), member_u64(v, "seq"@), member_str(v, "type"@)) {
            (Some(session_id), Some(seq), Some(t)) => match (roblox_event_spec(t), data_text(v)) {
                (Some(event_type), Some(payload)) => Some(
                    CrpPacketView {
                        version: CRP_VERSION,
                        platform: Platform::Roblox,
                        session_id,
                        seq: seq as u32,
                        event_type,
                        payload,
                    },
                ),
                _ => None,
            },
            _ => None,
        },
        None => None,
    }
}

fn roblox_event(t: &String) -> (r: Option<CrpEventType>)
    ensures
        r == roblox_event_spec(t@),
{
    if *t == "move".to_string() {
        Some(CrpEventType::Move)
    } else if *t == "chat".to_string() {
        Some(CrpEventType::Chat)
    } else if *t == "voice".to_string() {
        Some(CrpEventType::Voice)
    } else if *t == "join".to_string() {
        Some(CrpEventType::Join)
    } else if *t == "leave".to_string() {
        Some(CrpEventType::Leave)
    } else if *t == "ping".to_string() {
        Some(CrpEventType::Ping)
    } else if *t == "action".to_string() {
        Some(CrpEventType::Action)
    } else {
        None
    }
}

fn roblox_type_str(e: CrpEventType) -> (s: &'static str)
    ensures
        s@ == roblox_type_name(e),
{
    match e {
        CrpEventType::Move => "move",
        CrpEventType::Chat => "chat",
        CrpEventType::Voice => "voice",
        CrpEventType::Join => "join",
        CrpEventType::Leave => "leave",
        CrpEventType::Ping => "ping",
        CrpEventType::Pong => "pong",
        CrpEventType::Action => "action",
        CrpEventType::SessionState => "session_state",
    }
}

/// Parses a Roblox JSON message into a packet.
pub fn parse_roblox_json(text: &str) -> (r: Option<CrpPacket>)
    ensures
        match r {
            Some(p) => roblox_parse_spec(encode_utf8(text@)) == Some(p@),
            None => roblox_parse_spec(encode_utf8(text@)) is None,
        },
{
    let v = match parse_json(text.as_bytes()) {
        Some(v) => v,
        None => return None,
    };
    let session_id = match member_as_u64(&v, "session_id") {
        Some(n) => n,
        None => return None,
    };
    let seq = match member_as_u64(&v, "seq") {
        Some(n) => n as u32,
        None => return None,
    };
    let t = match member_as_str(&v, "type") {
        Some(t) => t,
        None => return None,
    };
    let event_type = match roblox_event(&t) {
        Some(e) => e,
        None => return None,
    };
    let payload = match member(&v, "data") {
        Some(d) => slice_to_vec(d.as_slice()),
        None => match serialize_json(&JsonValue::Null) {
            Some(d) => d,
            None => return None,
        },
    };
    Some(CrpPacket { version: CRP_VERSION, platform: Platform::Roblox, session_id, seq, event_type, payload })
}

/// The "data" of an outbound Roblox message: the payload as JSON (printed
/// again), or null when the payload is not JSON.
pub open spec fn embedded_data(payload: Seq<u8>) -> Option<Seq<u8>> {
    match json_parse(payload) {
        Some(v) => json_serialize(v),
        None => json_serialize(JsonView::Null),
    }
}

/// The Roblox JSON text of a packet: the object
/// `{"session_id", "seq", "platform", "type", "data"}`, if it prints.
pub open spec fn roblox_json_spec(p: CrpPacketView) -> Option<Seq<u8>> {
    match (
        json_serialize(JsonView::UInt(p.session_id)),
        json_serialize(JsonView::UInt(p.seq as u64)),
        json_serialize(JsonView::Str(platform_name(p.platform))),
        json_serialize(JsonView::Str(roblox_type_name(p.event_type))),
        embedded_data(p.payload),
    ) {
        (Some(a), Some(b), Some(c), Some(d), Some(e)) => json_serialize(
            JsonView::Object(
                seq![("session_id"@, a), ("seq"@, b), ("platform"@, c), ("type"@, d), ("data"@, e)],
            ),
        ),
        _ => None,
    }
}

fn unwrap_text(r: Option<Vec<u8>>) -> (t: Vec<u8>)
    requires
        r is Some,
    ensures
        r == Some(t),
{
    match r {
        Some(t) => t,
        None => Vec::new(),
    }
}

/// Encodes a packet as Roblox JSON text (UTF-8 bytes). Every packet
/// prints, so the result is never `None`.
pub fn crp_to_roblox_json(pkt: &CrpPacket) -> (r: Option<Vec<u8>>)
    ensures
        match r {
            Some(b) => roblox_json_spec(pkt@) == Some(b@),
            None => roblox_json_spec(pkt@) is None,
        },
        r is Some,
{
    let a = serialize_json(&JsonValue::UInt(pkt.session_id));
    let b = serialize_json(&JsonValue::UInt(pkt.seq as u64));
    let c = serialize_json(&JsonValue::Str(pkt.platform.name().to_string()));
    let d = serialize_json(&JsonValue::Str(roblox_type_str(pkt.event_type).to_string()));
    let e = match parse_json(pkt.payload.as_slice()) {
        Some(v) => serialize_json(&v),
        None => serialize_json(&JsonValue::Null),
    };
    if a.is_none() || b.is_none() || c.is_none() || d.is_none() || e.is_none() {
        return None;
    }
    let a = unwrap_text(a);
    let b = unwrap_text(b);
    let c = unwrap_text(c);
    let d = unwrap_text(d);
    let e = unwrap_text(e);
    proof {
        reveal_strlit("session_id");
        reveal_strlit("seq");
        reveal_strlit("platform");
        reveal_strlit("type");
        reveal_strlit("data");
    }
    let fields: Vec<(String, Vec<u8>)> = vec![
        ("session_id".to_string(), a),
        ("seq".to_string(), b),
        ("platform".to_string(), c),
        ("type".to_string(), d),
        ("data".to_string(), e),
    ];
    proof {
        let f = fields@.map_values(|f: (String, Vec<u8>)| (f.0@, f.1@));
        assert(f =~= seq![
            ("session_id"@, a@),
            ("seq"@, b@),
            ("platform"@, c@),
            ("type"@, d@),
            ("data"@, e@),
        ]);
        assert forall|j: int| 0 <= j < f.len() implies (#[trigger] json_parse(f[j].1)) is Some by {
            if j == 0 {
                assert(f[j].1 == a@);
            } else if j == 1 {
                assert(f[j].1 == b@);
            } else if j == 2 {
                assert(f[j].1 == c@);
            } else if j == 3 {
                assert(f[j].1 == d@);
            } else {
                assert(f[j].1 == e@);
            }
        }
    }
    serialize_json(&JsonValue::Object(fields))
}

/// A message of a Roblox WebSocket, as the connection hands it over.
pub enum WsMessage {
    Text(String),
    Binary(Vec<u8>),
    Close,
    Ping(Vec<u8>),
    /// Any other kind of frame.
    Other,
}

/// What the connection does with a message.
pub enum WsStep {
    /// Send the packet to the dispatch loop.
    Forward(CrpPacket),
    /// A text message that is not Roblox JSON, of this many bytes: logged.
    Malformed(usize),
    /// Nothing to do.
    Ignore,
    /// Answer with a Pong carrying these bytes.
    Pong(Vec<u8>),
    /// The connection ends.
    Stop,
}

/// Decides what to do with a message after the first: text is parsed as
/// Roblox JSON, binary as a CRP packet (dropped when malformed).
pub fn roblox_step(msg: WsMessage) -> (r: WsStep)
    ensures
        match msg {
            WsMessage::Text(t) => match roblox_parse_spec(encode_utf8(t@)) {
                Some(pv) => r matches WsStep::Forward(p) && p@ == pv,
                None => r matches WsStep::Malformed(n) && n == encode_utf8(t@).len() as usize,
            },
            WsMessage::Binary(b) => match crp_decode(b@) {
                Some(pv) => r matches WsStep::Forward(p) && p@ == pv,
                None => r is Ignore,
            },
            WsMessage::Close => r is Stop,
            WsMessage::Ping(d) => r matches WsStep::Pong(e) && e@ == d@,
            WsMessage::Other => r is Ignore,
        },
{
    match msg {
        WsMessage::Text(t) => match parse_roblox_json(t.as_str()) {
            Some(p) => WsStep::Forward(p),
            None => WsStep::Malformed(t.as_str().len()),
        },
        WsMessage::Binary(b) => match CrpPacket::decode(b.as_slice()) {
            Some(p) => WsStep::Forward(p),
            None => WsStep::Ignore,
        },
        WsMessage::Close => WsStep::Stop,
        WsMessage::Ping(d) => WsStep::Pong(d),
        WsMessage::Other => WsStep::Ignore,
    }
}

/// Checks the first message of a connection: it must be Roblox JSON text
/// for a Join whose payload carries a string "player_id". Returns the Join
/// packet and that player id.
pub fn roblox_join(first: WsMessage) -> (r: Option<(CrpPacket, String)>)
    ensures
        match first {
            WsMessage::Text(t) => match roblox_parse_spec(encode_utf8(t@)) {
                Some(pv) => if pv.event_type == CrpEventType::Join {
                    match player_id_spec(pv.payload) {
                        Some(id) => r matches Some((p, pid)) && p@ == pv && pid@ == id,
                        None => r is None,
                    }
                } else {
                    r is None
                },
                None => r is None,
            },
            _ => r is None,
        },
{
    match first {
        WsMessage::Text(t) => match parse_roblox_json(t.as_str()) {
            Some(p) => {
                if p.event_type == CrpEventType::Join {
                    match extract_player_id(p.payload.as_slice()) {
                        Some(pid) => Some((p, pid)),
                        None => None,
                    }
                } else {
                    None
                }
            },
            None => None,
        },
        _ => None,
    }
}

/// Re-encodes router bytes for a Roblox connection: the CRP packet they
/// hold as Roblox JSON text; `None` exactly when they do not hold a packet.
pub fn roblox_outbound(bytes: &[u8]) -> (r: Option<Vec<u8>>)
    ensures
        match crp_decode(bytes@) {
            Some(pv) => match r {
                Some(b) => roblox_json_spec(pv) == Some(b@),
                None => roblox_json_spec(pv) is None,
            },
            None => r is None,
        },
        r is Some <==> crp_decode(bytes@) is Some,
{
    match CrpPacket::decode(bytes) {
        Some(p) => crp_to_roblox_json(&p),
        None => None,
    }
}

} // verus!
