//! Dispatch: what the relay does with each inbound packet of an adapter.
//!
//! Join and Leave run the session lifecycle; Ping is only logged; every
//! other packet is routed. The loop that receives the packets, spawns the
//! outbound pumps and logs runs outside this crate and asks these functions
//! what to do.

use vstd::prelude::*;
use crate::crp::{CrpEventType, CrpPacket};
use crate::json::{json_parse, member_str, member_u64, parse_json, member_as_str, member_as_u64};
use crate::peer_registry::PeerRegistry;
use crate::platform::Platform;
use crate::channel::channel_pair;
use crate::router::{PeerHandle, Router, peers_in, has_peer, leave_spec, roster_sent};
use crate::session_manager::{JoinResult, SessionManager, SessionsView, on_join_spec, on_leave_spec, sessions_wf, lemma_leave_undoes_join};

verus! {

/// What the dispatch loop does with an inbound packet.
#[derive(Debug, Clone, Copy, PartialEq, Eq, Structural)]
pub enum DispatchAction {
    /// Join the player (session lifecycle).
    Join,
    /// Remove the player (session lifecycle).
    Leave,
    /// Keepalive: logged only.
    Ping,
    /// Route to the session's other peers.
    Route,
}

/// The action for each event type.
pub open spec fn dispatch_spec(e: CrpEventType) -> DispatchAction {
    match e {
        CrpEventType::Join => DispatchAction::Join,
        CrpEventType::Leave => DispatchAction::Leave,
        CrpEventType::Ping => DispatchAction::Ping,
        _ => DispatchAction::Route,
    }
}

/// Join and Leave run the session lifecycle, Ping is only logged, and every
/// other event type (move, chat, voice, action, pong, session state) is
/// routed.
pub proof fn lemma_dispatch_routes_the_rest(e: CrpEventType)
    ensures
        e == CrpEventType::Join ==> dispatch_spec(e) == DispatchAction::Join,
        e == CrpEventType::Leave ==> dispatch_spec(e) == DispatchAction::Leave,
        e == CrpEventType::Ping ==> dispatch_spec(e) == DispatchAction::Ping,
        e != CrpEventType::Join && e != CrpEventType::Leave && e != CrpEventType::Ping
            ==> dispatch_spec(e) == DispatchAction::Route,
{
}

pub fn dispatch_action(e: CrpEventType) -> (a: DispatchAction)
    ensures
        a == dispatch_spec(e),
{
    match e {
        CrpEventType::Join => DispatchAction::Join,
        CrpEventType::Leave => DispatchAction::Leave,
        CrpEventType::Ping => DispatchAction::Ping,
        _ => DispatchAction::Route,
    }
}

/// The decimal digit `d`.
pub open spec fn digit_char(d: nat) -> char {
    (48 + d) as char
}

/// The decimal representation of `n`, without leading zeros.
pub open spec fn decimal(n: nat) -> Seq<char>
    decreases n,
{
    if n < 10 {
        seq![digit_char(n)]
    } else {
        decimal(n / 10).push(digit_char(n % 10))
    }
}

fn digit_str(d: u32) -> (s: &'static str)
    requires
        d < 10,
    ensures
        s@ == seq![digit_char(d as nat)],
{
    proof {
        reveal_strlit("0");
        reveal_strlit("1");
        reveal_strlit("2");
        reveal_strlit("3");
        reveal_strlit("4");
        reveal_strlit("5");
        reveal_strlit("6");
        reveal_strlit("7");
        reveal_strlit("8");
        reveal_strlit("9");
    }
    match d {
        0 => "0",
        1 => "1",
        2 => "2",
        3 => "3",
        4 => "4",
        5 => "5",
        6 => "6",
        7 => "7",
        8 => "8",
        _ => "9",
    }
}

/// Appends the decimal representation of `n`.
fn push_decimal(s: &mut String, n: u32)
    ensures
        final(s)@ == old(s)@ + decimal(n as nat),
    decreases n,
{
    if n >= 10 {
        push_decimal(s, n / 10);
    }
    s.append(digit_str(n % 10));
    proof {
        if n >= 10 {
            assert(decimal(n as nat) == decimal((n / 10) as nat).push(digit_char((n % 10) as nat)));
        }
    }
}

/// The id given to a player whose packet names none: `prefix` followed by
/// the packet's sequence number in decimal (such as "unknown_7").
pub open spec fn fallback_id_spec(prefix: Seq<char>, seq: u32) -> Seq<char> {
    prefix + decimal(seq as nat)
}

pub fn fallback_player_id(prefix: &str, seq: u32) -> (s: String)
    ensures
        s@ == fallback_id_spec(prefix@, seq),
{
    let mut s = prefix.to_string();
    push_decimal(&mut s, seq);
    s
}

/// The "player_id" string of a JSON payload, if the payload is JSON and has
/// one.
pub open spec fn player_id_spec(payload: Seq<u8>) -> Option<Seq<char>> {
    match json_parse(payload) {
        Some(v) => member_str(v, "player_id"@),
        None => None,
    }
}

pub fn extract_player_id(payload: &[u8]) -> (r: Option<String>)
    ensures
        match r {
            Some(s) => player_id_spec(payload@) == Some(s@),
            None => player_id_spec(payload@) is None,
        },
{
    match parse_json(payload) {
        Some(v) => member_as_str(&v, "player_id"),
        None => None,
    }
}

/// The player id of a payload, or `prefix` and the sequence number when the
/// payload names none.
pub open spec fn player_id_or_fallback(payload: Seq<u8>, prefix: Seq<char>, seq: u32) -> Seq<char> {
    match player_id_spec(payload) {
        Some(p) => p,
        None => fallback_id_spec(prefix, seq),
    }
}

pub fn player_id_or(payload: &[u8], prefix: &str, seq: u32) -> (s: String)
    ensures
        s@ == player_id_or_fallback(payload@, prefix@, seq),
{
    match extract_player_id(payload) {
        Some(p) => p,
        None => fallback_player_id(prefix, seq),
    }
}

/// A Join payload: its "player_id" string and its optional
/// "invite_session_id" number; `None` when the payload is not JSON or has
/// no player id.
pub open spec fn join_payload_spec(payload: Seq<u8>) -> Option<(Seq<char>, Option<u64>)> {
    match json_parse(payload) {
        Some(v) => match member_str(v, "player_id"@) {
            Some(p) => Some((p, member_u64(v, "invite_session_id"@))),
            None => None,
        },
        None => None,
    }
}

pub fn parse_join_payload(bytes: &[u8]) -> (r: Option<(String, Option<u64>)>)
    ensures
        match r {
            Some((p, invite)) => join_payload_spec(bytes@) == Some((p@, invite)),
            None => join_payload_spec(bytes@) is None,
        },
{
    let v = match parse_json(bytes) {
        Some(v) => v,
        None => return None,
    };
    let player_id = match member_as_str(&v, "player_id") {
        Some(p) => p,
        None => return None,
    };
    let invite = member_as_u64(&v, "invite_session_id");
    Some((player_id, invite))
}

/// Who a Join packet is from and where it asks to go: the payload's player
/// id and invite, or "unknown_" and the packet's sequence number with no
/// invite when the payload is malformed.
pub open spec fn join_request(payload: Seq<u8>, seq: u32) -> (Seq<char>, Option<u64>) {
    match join_payload_spec(payload) {
        Some(r) => r,
        None => (fallback_id_spec("unknown_"@, seq), None),
    }
}

/// What became of a Join.
pub enum JoinOutcome {
    /// The player already joined through this adapter: nothing was done.
    Duplicate(String),
    /// The player is in `session_id` and joined the router there; the
    /// outbound pump owns `handle`.
    Admitted { player_id: String, session_id: u64, handle: PeerHandle },
    /// The invited session is not open.
    SessionNotFound(String),
    /// The session is full.
    SessionFull(String),
    /// The relay is at capacity.
    RelaySaturated(String),
}

/// Handles a Join packet from `platform`: ignores a player this adapter
/// already joined; otherwise asks the session manager, and when it grants a
/// session joins the router there (which broadcasts the new roster) and
/// records the player and its peer id. When the router has no peer id left
/// to give, the relay is at capacity and nothing changes.
pub fn handle_join(
    pkt: &CrpPacket,
    platform: Platform,
    router: &mut Router,
    sessions: &mut SessionManager,
    peers: &mut PeerRegistry,
) -> (r: JoinOutcome)
    requires
        old(sessions).wf(),
        old(router).wf(),
    ensures
        final(sessions).wf(),
        final(router).wf(),
        ({
            let (pid, invite) = join_request(pkt.payload@, pkt.seq);
            if old(peers)@.contains_key(pid) {
                &&& r matches JoinOutcome::Duplicate(p) && p@ == pid
                &&& final(router)@ == old(router)@
                &&& final(router).sent() == old(router).sent()
                &&& final(router).next_peer_id() == old(router).next_peer_id()
                &&& final(sessions)@ == old(sessions)@
                &&& final(peers)@ == old(peers)@
                &&& final(peers).peer_ids() == old(peers).peer_ids()
            } else if old(router).next_peer_id() == u64::MAX {
                &&& r matches JoinOutcome::RelaySaturated(p) && p@ == pid
                &&& final(router)@ == old(router)@
                &&& final(router).sent() == old(router).sent()
                &&& final(router).next_peer_id() == old(router).next_peer_id()
                &&& final(sessions)@ == old(sessions)@
                &&& final(peers)@ == old(peers)@
                &&& final(peers).peer_ids() == old(peers).peer_ids()
            } else {
                let (jr, sv) = on_join_spec(old(sessions)@, pid, invite);
                &&& final(sessions)@ == sv
                &&& match jr {
                    JoinResult::Joined(sid) | JoinResult::AlreadyJoined(sid) => {
                        &&& r matches JoinOutcome::Admitted { player_id, session_id, handle }
                            && player_id@ == pid && session_id == sid
                            && handle.session_id == sid && handle.platform == platform
                            && handle.peer_id == old(router).next_peer_id()
                            && final(router)@ == old(router)@.insert(
                                sid,
                                peers_in(old(router)@, sid).push((handle.peer_id, platform, final(router)@[sid].last().2)),
                            )
                            && final(peers).peer_ids() == old(peers).peer_ids().insert(pid, handle.peer_id)
                        &&& final(router).next_peer_id() == old(router).next_peer_id() + 1
                        &&& r matches JoinOutcome::Admitted { handle, .. }
                            && channel_pair(final(router)@[sid].last().2, handle.outbound)
                        &&& roster_sent(final(router)@, sid, old(router).sent(), final(router).sent())
                        &&& final(peers)@ == old(peers)@.insert(pid, sid)
                    },
                    JoinResult::SessionNotFound => {
                        &&& r matches JoinOutcome::SessionNotFound(p) && p@ == pid
                        &&& final(router)@ == old(router)@
                        &&& final(router).sent() == old(router).sent()
                        &&& final(router).next_peer_id() == old(router).next_peer_id()
                        &&& final(peers)@ == old(peers)@
                        &&& final(peers).peer_ids() == old(peers).peer_ids()
                    },
                    JoinResult::SessionFull => {
                        &&& r matches JoinOutcome::SessionFull(p) && p@ == pid
                        &&& final(router)@ == old(router)@
                        &&& final(router).sent() == old(router).sent()
                        &&& final(router).next_peer_id() == old(router).next_peer_id()
                        &&& final(peers)@ == old(peers)@
                        &&& final(peers).peer_ids() == old(peers).peer_ids()
                    },
                    JoinResult::RelaySaturated => {
                        &&& r matches JoinOutcome::RelaySaturated(p) && p@ == pid
                        &&& final(router)@ == old(router)@
                        &&& final(router).sent() == old(router).sent()
                        &&& final(router).next_peer_id() == old(router).next_peer_id()
                        &&& final(peers)@ == old(peers)@
                        &&& final(peers).peer_ids() == old(peers).peer_ids()
                    },
                }
            }
        }),
{
    let (player_id, invite_session_id) = match parse_join_payload(&pkt.payload) {
        Some(r) => r,
        None => (fallback_player_id("unknown_", pkt.seq), None),
    };
    if peers.contains(player_id.as_str()) {
        return JoinOutcome::Duplicate(player_id);
    }
    if !router.can_join() {
        return JoinOutcome::RelaySaturated(player_id);
    }
    match sessions.on_join(player_id.as_str(), invite_session_id) {
        JoinResult::Joined(sid) | JoinResult::AlreadyJoined(sid) => {
            let handle = router.join(sid, platform);
            peers.insert_id(player_id.clone(), sid);
            peers.insert_peer_id(player_id.clone(), handle.peer_id);
            JoinOutcome::Admitted { player_id, session_id: sid, handle }
        },
        JoinResult::SessionNotFound => JoinOutcome::SessionNotFound(player_id),
        JoinResult::SessionFull => JoinOutcome::SessionFull(player_id),
        JoinResult::RelaySaturated => JoinOutcome::RelaySaturated(player_id),
    }
}

/// Who a Leave packet is from: the payload's player id, or "unknown_" and
/// the packet's sequence number.
pub open spec fn leave_request(payload: Seq<u8>, seq: u32) -> Seq<char> {
    player_id_or_fallback(payload, "unknown_"@, seq)
}

/// Handles a Leave packet: forgets the player on this adapter and in the
/// session manager, and deregisters its peer from the router (which
/// broadcasts the session's new roster), so that the session's traffic no
/// longer reaches it and its outbound pump ends.
pub fn handle_leave(
    pkt: &CrpPacket,
    router: &mut Router,
    sessions: &mut SessionManager,
    peers: &mut PeerRegistry,
) -> (player_id: String)
    requires
        old(sessions).wf(),
    ensures
        player_id@ == leave_request(pkt.payload@, pkt.seq),
        final(peers)@ == old(peers)@.remove(player_id@),
        final(peers).peer_ids() == old(peers).peer_ids().remove(player_id@),
        final(sessions)@ == on_leave_spec(old(sessions)@, player_id@),
        final(sessions).wf(),
        old(router).wf() ==> final(router).wf(),
        final(router).next_peer_id() == old(router).next_peer_id(),
        match (old(peers)@.get(player_id@), old(peers).peer_ids().get(player_id@)) {
            (Some(sid), Some(peer)) => {
                &&& final(router)@ == leave_spec(old(router)@, sid, peer)
                &&& has_peer(peers_in(old(router)@, sid), peer)
                    ==> roster_sent(final(router)@, sid, old(router).sent(), final(router).sent())
                &&& !has_peer(peers_in(old(router)@, sid), peer) ==> final(router).sent() == old(router).sent()
            },
            _ => final(router)@ == old(router)@ && final(router).sent() == old(router).sent(),
        },
{
    let player_id = player_id_or(&pkt.payload, "unknown_", pkt.seq);
    let sid = peers.session_id_for(player_id.as_str());
    let peer = peers.peer_id_for(player_id.as_str());
    if let (Some(sid), Some(peer)) = (sid, peer) {
        router.leave(sid, peer);
    }
    peers.remove(player_id.as_str());
    sessions.on_leave(player_id.as_str());
    player_id
}

/// A Leave from the player of an admitted Join undoes that Join in the
/// adapter's registry and in the session manager: the registry, the
/// players and the session counts are as before (the id counter may have
/// moved on).
pub proof fn lemma_leave_undoes_admitted_join(
    v: SessionsView,
    peers: Map<Seq<char>, u64>,
    join_payload: Seq<u8>,
    join_seq: u32,
    leave_payload: Seq<u8>,
    leave_seq: u32,
)
    requires
        sessions_wf(v),
        !peers.contains_key(join_request(join_payload, join_seq).0),
        !v.players.contains_key(join_request(join_payload, join_seq).0),
        on_join_spec(v, join_request(join_payload, join_seq).0, join_request(join_payload, join_seq).1).0 is Joined,
        leave_request(leave_payload, leave_seq) == join_request(join_payload, join_seq).0,
    ensures
        ({
            let (pid, invite) = join_request(join_payload, join_seq);
            let (jr, w) = on_join_spec(v, pid, invite);
            let sid = jr->Joined_0;
            let left = leave_request(leave_payload, leave_seq);
            &&& peers.insert(pid, sid).remove(left) == peers
            &&& on_leave_spec(w, left).players == v.players
            &&& on_leave_spec(w, left).counts == v.counts
        }),
{
    let (pid, invite) = join_request(join_payload, join_seq);
    lemma_leave_undoes_join(v, pid, invite);
    let sid = on_join_spec(v, pid, invite).0->Joined_0;
    assert(peers.insert(pid, sid).remove(pid) =~= peers);
}

} // verus!
