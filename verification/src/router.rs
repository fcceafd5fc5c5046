//! Zero-state packet router.
//!
//! Keeps, for each session, the peers that joined it (an id, a platform and
//! an outbound channel each); routes each packet to every peer of the
//! session on another platform than the sender; handles Join and Leave;
//! broadcasts the session's roster whenever it changes.
//!
//! The router does no game logic, no packet translation and no
//! authentication. It keeps, as ghost state, the record of every send it
//! made: which peer, what bytes, and whether the peer's channel took them.

use vstd::prelude::*;
use vstd::seq_lib::seq_to_set_is_finite;
use vstd::set::fold::{lemma_fold_empty, lemma_fold_insert};
use bytes::Bytes;
use dashmap::DashMap;
use tokio::sync::mpsc::UnboundedReceiver;
use crate::channel::{PeerTx, SendReceipt, channel_pair, receipts_are, sends_added, lemma_sends_added_none, lemma_sends_added_push, bytes_content, bytes_from_vec, bytes_clone, peer_channel, peer_send};
use crate::crp::{CrpEventType, CrpPacket, CrpPacketView, CRP_VERSION, crp_encode};
use crate::json::{JsonValue, JsonView, json_parse, json_serialize, serialize_json, is_scalar};
use crate::platform::{Platform, platform_name};
use crate::tables::{
    peer_table, nonempty_sessions, peer_table_new, peer_table_get, peer_table_insert,
    peer_table_len, peer_table_keys, peer_table_retain_nonempty,
};

verus! {

/// What a peer that joined a session gets back: its session, its platform,
/// its id in the router and the receiving end of its outbound channel,
/// whose sending end the router keeps for the peer.
/// The holder calls `Router::leave` with the session and the id to
/// deregister the peer.
pub struct PeerHandle {
    pub session_id: u64,
    pub platform: Platform,
    pub peer_id: u64,
    pub outbound: UnboundedReceiver<Bytes>,
}

/// The peers of a session, by id and platform; none for a session the
/// router does not hold.
pub open spec fn peers_in(t: Map<u64, Seq<(u64, Platform, PeerTx)>>, session_id: u64) -> Seq<(u64, Platform, PeerTx)> {
    if t.contains_key(session_id) {
        t[session_id]
    } else {
        Seq::empty()
    }
}

/// The platforms of a session's peers, in order.
pub open spec fn roster_of(peers: Seq<(u64, Platform, PeerTx)>) -> Seq<Platform> {
    peers.map_values(|e: (u64, Platform, PeerTx)| e.1)
}

/// Whether a peer with id `id` is among `peers`.
pub open spec fn has_peer(peers: Seq<(u64, Platform, PeerTx)>, id: u64) -> bool {
    exists|i: int| 0 <= i < peers.len() && #[trigger] peers[i].0 == id
}

/// The elements of `s` whose flag in `keep` is set, in order.
pub open spec fn select<A>(s: Seq<A>, keep: Seq<bool>) -> Seq<A>
    decreases s.len(),
{
    if s.len() == 0 {
        s
    } else {
        let r = select(s.drop_last(), keep.drop_last());
        if keep.last() {
            r.push(s.last())
        } else {
            r
        }
    }
}

/// The peers of a session other than the peer `id`.
pub open spec fn without_peer(peers: Seq<(u64, Platform, PeerTx)>, id: u64) -> Seq<(u64, Platform, PeerTx)> {
    peers.filter(|e: (u64, Platform, PeerTx)| e.0 != id)
}

/// The peers of a session that are not on `platform`.
pub open spec fn off_platform(peers: Seq<(u64, Platform, PeerTx)>, platform: Platform) -> Seq<(u64, Platform, PeerTx)> {
    peers.filter(|e: (u64, Platform, PeerTx)| e.1 != platform)
}

/// A Leave of peer `id` from a session: that peer leaves it, and every
/// session left with no peers is closed.
pub open spec fn leave_spec(t: Map<u64, Seq<(u64, Platform, PeerTx)>>, session_id: u64, id: u64) -> Map<u64, Seq<(u64, Platform, PeerTx)>> {
    let t1 = if t.contains_key(session_id) {
        t.insert(session_id, without_peer(t[session_id], id))
    } else {
        t
    };
    nonempty_sessions(t1)
}

/// A routing outcome: for each peer of the session, whether it is still
/// reachable. A peer on the sender's platform is not sent to and stays.
pub open spec fn is_route_outcome(peers: Seq<(u64, Platform, PeerTx)>, sender: Platform, alive: Seq<bool>) -> bool {
    &&& alive.len() == peers.len()
    &&& forall|i: int| 0 <= i < peers.len() && peers[i].1 == sender ==> #[trigger] alive[i]
}

/// The sends of a routing: for each peer not on the sender's platform, in
/// order, the peer's sender, the bytes, and whether its channel took them.
pub open spec fn route_log(peers: Seq<(u64, Platform, PeerTx)>, sender: Platform, bytes: Seq<u8>, alive: Seq<bool>) -> Seq<(PeerTx, Seq<u8>, bool)>
    decreases peers.len(),
{
    if peers.len() == 0 {
        Seq::empty()
    } else {
        let r = route_log(peers.drop_last(), sender, bytes, alive.drop_last());
        if peers.last().1 != sender {
            r.push((peers.last().2, bytes, alive.last()))
        } else {
            r
        }
    }
}

/// The sends of a broadcast: for each peer, in order, the peer's sender,
/// the bytes, and whether its channel took them.
pub open spec fn broadcast_log(peers: Seq<(u64, Platform, PeerTx)>, bytes: Seq<u8>, oks: Seq<bool>) -> Seq<(PeerTx, Seq<u8>, bool)> {
    Seq::new(peers.len(), |i: int| (peers[i].2, bytes, oks[i]))
}

/// The router's tables are finite, and every peer id in them is below the
/// next id to hand out.
pub open spec fn router_wf(t: Map<u64, Seq<(u64, Platform, PeerTx)>>, next_peer_id: u64) -> bool {
    &&& t.dom().finite()
    &&& forall|k: u64, i: int| #![trigger t[k][i]] t.contains_key(k) && 0 <= i < t[k].len() ==> t[k][i].0 < next_peer_id
}

/// The total number of peers over all sessions.
pub open spec fn total_peers(t: Map<u64, Seq<(u64, Platform, PeerTx)>>) -> nat {
    t.dom().fold(0nat, |acc: nat, k: u64| acc + t[k].len())
}

/// The number of peers of the sessions listed in `keys`.
pub open spec fn peers_of_keys(t: Map<u64, Seq<(u64, Platform, PeerTx)>>, keys: Seq<u64>) -> nat
    decreases keys.len(),
{
    if keys.len() == 0 {
        0
    } else {
        peers_of_keys(t, keys.drop_last()) + t[keys.last()].len()
    }
}

/// The JSON texts of the platforms' names, if they all print.
pub open spec fn name_texts(roster: Seq<Platform>) -> Option<Seq<Seq<u8>>>
    decreases roster.len(),
{
    if roster.len() == 0 {
        Some(Seq::empty())
    } else {
        match (name_texts(roster.drop_last()), json_serialize(JsonView::Str(platform_name(roster.last())))) {
            (Some(r), Some(t)) => Some(r.push(t)),
            _ => None,
        }
    }
}

/// The payload of a session's roster broadcast: the JSON object
/// `{"session_id": <id>, "roster": [<platform name>, ...]}`, if it prints.
pub open spec fn session_state_payload(session_id: u64, roster: Seq<Platform>) -> Option<Seq<u8>> {
    match (json_serialize(JsonView::UInt(session_id)), name_texts(roster)) {
        (Some(id_text), Some(names)) => match json_serialize(JsonView::Array(names)) {
            Some(roster_text) => json_serialize(
                JsonView::Object(seq![("session_id"@, id_text), ("roster"@, roster_text)]),
            ),
            None => None,
        },
        _ => None,
    }
}

/// The wire bytes of a session's roster broadcast: a SessionState packet
/// of the current version, sequence 0, sender field Roblox, carrying the
/// roster payload; `None` when the payload does not print.
pub open spec fn roster_message(session_id: u64, roster: Seq<Platform>) -> Option<Seq<u8>> {
    match session_state_payload(session_id, roster) {
        Some(payload) => Some(crp_encode(CrpPacketView {
            version: CRP_VERSION,
            platform: Platform::Roblox,
            session_id,
            seq: 0,
            event_type: CrpEventType::SessionState,
            payload,
        })),
        None => None,
    }
}

/// What a roster broadcast of session `session_id` adds to the receipts
/// `before`, the router's sessions being `t`: the roster message prints,
/// and it is handed once to the sender of each peer of the session, in
/// order; nothing when the router does not hold the session.
pub open spec fn roster_sent(
    t: Map<u64, Seq<(u64, Platform, PeerTx)>>,
    session_id: u64,
    before: Seq<SendReceipt>,
    after: Seq<SendReceipt>,
) -> bool {
    if t.contains_key(session_id) {
        &&& roster_message(session_id, roster_of(t[session_id])) is Some
        &&& exists|oks: Seq<bool>|
            oks.len() == t[session_id].len() && sends_added(
                before,
                after,
                broadcast_log(t[session_id], roster_message(session_id, roster_of(t[session_id]))->Some_0, oks),
            )
    } else {
        after == before
    }
}

/// Filtering out an id that does not occur changes nothing.
pub proof fn lemma_without_absent_peer(s: Seq<(u64, Platform, PeerTx)>, id: u64)
    requires
        !has_peer(s, id),
    ensures
        without_peer(s, id) == s,
    decreases s.len(),
{
    if s.len() > 0 {
        assert(!has_peer(s.drop_last(), id)) by {
            if has_peer(s.drop_last(), id) {
                let j = choose|j: int| 0 <= j < s.drop_last().len() && #[trigger] s.drop_last()[j].0 == id;
                assert(s[j].0 == id);
            }
        }
        lemma_without_absent_peer(s.drop_last(), id);
        assert(s.last().0 != id) by {
            assert(s[s.len() - 1] == s.last());
        }
        reveal_with_fuel(Seq::filter, 1);
        assert(without_peer(s, id) == without_peer(s.drop_last(), id).push(s.last()));
        assert(s.drop_last().push(s.last()) =~= s);
    }
}

/// A Leave undoes a Join: when a peer with an id that the session does not
/// hold joins it, and then leaves it, the router is as before (when no
/// session was empty before).
pub proof fn lemma_leave_undoes_join(
    t: Map<u64, Seq<(u64, Platform, PeerTx)>>,
    session_id: u64,
    id: u64,
    platform: Platform,
    tx: PeerTx,
)
    requires
        forall|k: u64| #[trigger] t.contains_key(k) ==> t[k].len() > 0,
        !has_peer(peers_in(t, session_id), id),
    ensures
        leave_spec(t.insert(session_id, peers_in(t, session_id).push((id, platform, tx))), session_id, id) == t,
{
    let s = peers_in(t, session_id);
    let j = t.insert(session_id, s.push((id, platform, tx)));
    assert(s.push((id, platform, tx)).drop_last() =~= s);
    reveal_with_fuel(Seq::filter, 1);
    lemma_without_absent_peer(s, id);
    assert(without_peer(s.push((id, platform, tx)), id) == s);
    let r = leave_spec(j, session_id, id);
    assert(r =~= t);
}

/// A Leave removes exactly the peer that leaves: afterwards the session
/// holds no peer with its id, every other peer of the session is still in
/// it, and no session is empty.
pub proof fn lemma_leave_removes_peer(t: Map<u64, Seq<(u64, Platform, PeerTx)>>, session_id: u64, id: u64)
    ensures
        !has_peer(peers_in(leave_spec(t, session_id, id), session_id), id),
        forall|i: int| 0 <= i < peers_in(t, session_id).len() && (#[trigger] peers_in(t, session_id)[i]).0 != id
            ==> peers_in(leave_spec(t, session_id, id), session_id).contains(peers_in(t, session_id)[i]),
        forall|k: u64| #[trigger] leave_spec(t, session_id, id).contains_key(k)
            ==> leave_spec(t, session_id, id)[k].len() > 0,
{
    let r = leave_spec(t, session_id, id);
    let pred = |e: (u64, Platform, PeerTx)| e.0 != id;
    if r.contains_key(session_id) {
        let f = without_peer(t[session_id], id);
        assert(r[session_id] == f);
        if has_peer(f, id) {
            let i = choose|i: int| 0 <= i < f.len() && #[trigger] f[i].0 == id;
            t[session_id].lemma_filter_pred(pred, i);
        }
    }
    assert forall|i: int| 0 <= i < peers_in(t, session_id).len() && (#[trigger] peers_in(t, session_id)[i]).0 != id
        implies peers_in(r, session_id).contains(peers_in(t, session_id)[i]) by {
        let f = without_peer(t[session_id], id);
        t[session_id].lemma_filter_contains(pred, i);
        assert(f.contains(t[session_id][i]));
        let x = choose|x: int| 0 <= x < f.len() && f[x] == t[session_id][i];
        assert(f.len() > 0);
    }
}

/// Routing never prunes a peer on the sender's platform: those peers are
/// not sent to, so they all stay.
pub proof fn lemma_route_keeps_sender_platform(peers: Seq<(u64, Platform, PeerTx)>, sender: Platform, alive: Seq<bool>)
    requires
        is_route_outcome(peers, sender, alive),
    ensures
        select(peers, alive).filter(|e: (u64, Platform, PeerTx)| e.1 == sender)
            == peers.filter(|e: (u64, Platform, PeerTx)| e.1 == sender),
    decreases peers.len(),
{
    if peers.len() > 0 {
        let n = peers.len() - 1;
        assert(is_route_outcome(peers.drop_last(), sender, alive.drop_last())) by {
            assert forall|i: int| 0 <= i < n && peers.drop_last()[i].1 == sender implies #[trigger] alive.drop_last()[i] by {
                assert(alive[i]);
            }
        }
        lemma_route_keeps_sender_platform(peers.drop_last(), sender, alive.drop_last());
        reveal_with_fuel(Seq::filter, 1);
        let r = select(peers.drop_last(), alive.drop_last());
        if peers.last().1 == sender {
            assert(alive[n]);
            assert(r.push(peers.last()).drop_last() =~= r);
        } else if alive.last() {
            assert(r.push(peers.last()).drop_last() =~= r);
        }
    }
}

/// A routing sends to exactly the peers of the session on another platform
/// than the sender, each once and in order, and hands each the same bytes:
/// the senders handed the bytes are those of the peers off the sender's
/// platform.
pub proof fn lemma_route_reaches_other_platforms(
    peers: Seq<(u64, Platform, PeerTx)>,
    sender: Platform,
    bytes: Seq<u8>,
    alive: Seq<bool>,
)
    requires
        alive.len() == peers.len(),
    ensures
        route_log(peers, sender, bytes, alive).len() == off_platform(peers, sender).len(),
        forall|k: int| 0 <= k < route_log(peers, sender, bytes, alive).len() ==> {
            &&& (#[trigger] route_log(peers, sender, bytes, alive)[k]).0 == off_platform(peers, sender)[k].2
            &&& route_log(peers, sender, bytes, alive)[k].1 == bytes
        },
    decreases peers.len(),
{
    reveal_with_fuel(Seq::filter, 1);
    if peers.len() > 0 {
        lemma_route_reaches_other_platforms(peers.drop_last(), sender, bytes, alive.drop_last());
    }
}

pub struct Router {
    /// session_id -> [(peer id, platform, outbound sender)]
    sessions: DashMap<u64, Vec<(u64, Platform, PeerTx)>>,
    /// The id the next peer gets.
    next_peer_id: u64,
    /// The receipt of every call to a peer's channel so far.
    sent: Ghost<Seq<SendReceipt>>,
}

impl View for Router {
    type V = Map<u64, Seq<(u64, Platform, PeerTx)>>;

    closed spec fn view(&self) -> Map<u64, Seq<(u64, Platform, PeerTx)>> {
        peer_table(self.sessions)
    }
}

/// Selecting every element keeps the sequence.
pub proof fn lemma_select_all<A>(s: Seq<A>, keep: Seq<bool>)
    requires
        keep.len() == s.len(),
        forall|i: int| 0 <= i < keep.len() ==> #[trigger] keep[i],
    ensures
        select(s, keep) == s,
    decreases s.len(),
{
    if s.len() > 0 {
        lemma_select_all(s.drop_last(), keep.drop_last());
        assert(keep.last());
        assert(s.drop_last().push(s.last()) =~= s);
    }
}

/// What a selection keeps comes from the sequence.
proof fn lemma_select_contained<A>(s: Seq<A>, keep: Seq<bool>)
    ensures
        forall|j: int| 0 <= j < select(s, keep).len() ==> s.contains(#[trigger] select(s, keep)[j]),
    decreases s.len(),
{
    if s.len() > 0 {
        lemma_select_contained(s.drop_last(), keep.drop_last());
        let r = select(s.drop_last(), keep.drop_last());
        assert forall|j: int| 0 <= j < select(s, keep).len() implies s.contains(#[trigger] select(s, keep)[j]) by {
            if j < r.len() {
                assert(s.drop_last().contains(r[j]));
                let x = choose|x: int| 0 <= x < s.drop_last().len() && s.drop_last()[x] == r[j];
                assert(s[x] == r[j]);
            } else {
                assert(s[s.len() - 1] == s.last());
            }
        }
    }
}

/// What remains after a peer leaves comes from the session.
proof fn lemma_without_peer_contained(s: Seq<(u64, Platform, PeerTx)>, id: u64)
    ensures
        forall|j: int| 0 <= j < without_peer(s, id).len() ==> s.contains(#[trigger] without_peer(s, id)[j]),
    decreases s.len(),
{
    if s.len() > 0 {
        lemma_without_peer_contained(s.drop_last(), id);
        reveal_with_fuel(Seq::filter, 1);
        let r = without_peer(s.drop_last(), id);
        assert forall|j: int| 0 <= j < without_peer(s, id).len() implies s.contains(#[trigger] without_peer(s, id)[j]) by {
            if j < r.len() {
                assert(s.drop_last().contains(r[j]));
                let x = choose|x: int| 0 <= x < s.drop_last().len() && s.drop_last()[x] == r[j];
                assert(s[x] == r[j]);
            } else {
                assert(s[s.len() - 1] == s.last());
            }
        }
    }
}

/// Counting peers over a set of sessions depends only on how many peers
/// each of those sessions has.
proof fn lemma_peer_fold_agree(t1: Map<u64, Seq<(u64, Platform, PeerTx)>>, t2: Map<u64, Seq<(u64, Platform, PeerTx)>>, s: Set<u64>)
    requires
        s.finite(),
        forall|k: u64| #[trigger] s.contains(k) ==> t1[k].len() == t2[k].len(),
    ensures
        s.fold(0nat, |acc: nat, k: u64| acc + t1[k].len()) == s.fold(0nat, |acc: nat, k: u64| acc + t2[k].len()),
    decreases s.len(),
{
    let f1 = |acc: nat, k: u64| acc + t1[k].len();
    let f2 = |acc: nat, k: u64| acc + t2[k].len();
    if s.len() == 0 {
        assert(s =~= Set::<u64>::empty());
        lemma_fold_empty(0nat, f1);
        lemma_fold_empty(0nat, f2);
    } else {
        let x = s.choose();
        let r = s.remove(x);
        lemma_peer_fold_agree(t1, t2, r);
        assert(r.insert(x) =~= s);
        lemma_fold_insert(r, 0nat, f1, x);
        lemma_fold_insert(r, 0nat, f2, x);
    }
}

/// Replacing a session's peers changes the total by the difference.
pub proof fn lemma_total_peers_insert(t: Map<u64, Seq<(u64, Platform, PeerTx)>>, session_id: u64, peers: Seq<(u64, Platform, PeerTx)>)
    requires
        t.dom().finite(),
    ensures
        total_peers(t.insert(session_id, peers)) + peers_in(t, session_id).len() == total_peers(t) + peers.len(),
{
    let u = t.insert(session_id, peers);
    let f = |acc: nat, k: u64| acc + t[k].len();
    let g = |acc: nat, k: u64| acc + u[k].len();
    let r = t.dom().remove(session_id);
    lemma_peer_fold_agree(t, u, r);
    assert(u.dom() =~= r.insert(session_id));
    lemma_fold_insert(r, 0nat, g, session_id);
    if t.contains_key(session_id) {
        assert(t.dom() =~= r.insert(session_id));
        lemma_fold_insert(r, 0nat, f, session_id);
    } else {
        assert(t.dom() =~= r);
    }
}

/// Counting the peers session by session, in any order that lists each
/// session once, gives the total.
pub proof fn lemma_peers_of_keys_total(t: Map<u64, Seq<(u64, Platform, PeerTx)>>, keys: Seq<u64>)
    requires
        keys.no_duplicates(),
    ensures
        keys.to_set().fold(0nat, |acc: nat, k: u64| acc + t[k].len()) == peers_of_keys(t, keys),
    decreases keys.len(),
{
    let f = |acc: nat, k: u64| acc + t[k].len();
    if keys.len() == 0 {
        assert(keys.to_set() =~= Set::<u64>::empty());
        lemma_fold_empty(0nat, f);
    } else {
        let init = keys.drop_last();
        assert(init.no_duplicates());
        lemma_peers_of_keys_total(t, init);
        seq_to_set_is_finite(init);
        Seq::<u64>::lemma_to_set_insert_commutes(init, keys.last());
        assert(init + seq![keys.last()] =~= keys);
        assert(!init.to_set().contains(keys.last())) by {
            if init.to_set().contains(keys.last()) {
                let j = choose|j: int| 0 <= j < init.len() && init[j] == keys.last();
                assert(keys[j] == keys[keys.len() - 1]);
            }
        }
        lemma_fold_insert(init.to_set(), 0nat, f, keys.last());
    }
}

impl Router {
    /// The id the next peer to join gets.
    pub closed spec fn next_peer_id(&self) -> u64 {
        self.next_peer_id
    }

    /// The receipts of the router's calls to its peers' channels, in order:
    /// each names the sender, the bytes handed over and whether the channel
    /// took them.
    pub closed spec fn sent(&self) -> Seq<SendReceipt> {
        self.sent@
    }

    pub open spec fn wf(&self) -> bool {
        router_wf(self@, self.next_peer_id())
    }

    pub fn new() -> (r: Self)
        ensures
            r@.dom() == Set::<u64>::empty(),
            r.next_peer_id() == 1,
            r.sent() == Seq::<SendReceipt>::empty(),
            r.wf(),
    {
        let r = Router { sessions: peer_table_new(), next_peer_id: 1, sent: Ghost(Seq::empty()) };
        proof {
            assert(r@.dom() =~= Set::<u64>::empty());
        }
        r
    }

    /// Whether another peer can be given an id.
    pub fn can_join(&self) -> (r: bool)
        ensures
            r == (self.next_peer_id() < u64::MAX),
    {
        self.next_peer_id < u64::MAX
    }

    /// Registers a peer for a session: called when a Join packet arrives.
    /// The peer gets the next id and is appended to the session's peers
    /// (opening the session if needed), and the session's new roster is
    /// broadcast to all its peers.
    pub fn join(&mut self, session_id: u64, platform: Platform) -> (h: PeerHandle)
        requires
            old(self).wf(),
            old(self).next_peer_id() < u64::MAX,
        ensures
            final(self).wf(),
            h.session_id == session_id,
            h.platform == platform,
            h.peer_id == old(self).next_peer_id(),
            !has_peer(peers_in(old(self)@, session_id), h.peer_id),
            final(self).next_peer_id() == old(self).next_peer_id() + 1,
            final(self)@ == old(self)@.insert(
                session_id,
                peers_in(old(self)@, session_id).push((h.peer_id, platform, final(self)@[session_id].last().2)),
            ),
            final(self)@.len() == old(self)@.len() + if old(self)@.contains_key(session_id) { 0int } else { 1int },
            total_peers(final(self)@) == total_peers(old(self)@) + 1,
            channel_pair(final(self)@[session_id].last().2, h.outbound),
            roster_sent(final(self)@, session_id, old(self).sent(), final(self).sent()),
    {
        let (tx, rx, ends) = peer_channel();
        let peer_id = self.next_peer_id;
        let mut peers = match peer_table_get(&self.sessions, session_id) {
            Some(p) => p,
            None => Vec::new(),
        };
        let ghost before = peers@;
        peers.push((peer_id, platform, tx));
        let ghost entry = peers@.last();
        proof {
            assert(peers@ =~= before.push(entry));
            if !old(self)@.contains_key(session_id) {
                assert(before =~= Seq::<(u64, Platform, PeerTx)>::empty());
            }
            assert(!has_peer(peers_in(old(self)@, session_id), peer_id)) by {
                if has_peer(peers_in(old(self)@, session_id), peer_id) {
                    let i = choose|i: int| 0 <= i < peers_in(old(self)@, session_id).len()
                        && #[trigger] peers_in(old(self)@, session_id)[i].0 == peer_id;
                    assert(old(self)@[session_id][i].0 < peer_id);
                }
            }
        }
        peer_table_insert(&mut self.sessions, session_id, peers);
        proof {
            lemma_total_peers_insert(old(self)@, session_id, peers_in(old(self)@, session_id).push(entry));
        }
        self.next_peer_id = peer_id + 1;
        proof {
            let t = self@;
            let o = old(self)@;
            assert forall|k: u64, i: int| #![trigger t[k][i]] t.contains_key(k) && 0 <= i < t[k].len()
                implies t[k][i].0 < self.next_peer_id by {
                if k != session_id {
                    assert(o[k][i].0 < peer_id);
                } else if i < t[k].len() - 1 {
                    assert(t[k][i] == o[k][i]);
                }
            }
        }
        self.broadcast_session_state(session_id);
        proof {
            assert(ends@.sender() == self@[session_id].last().2 && ends@.receiver() == rx);
        }
        PeerHandle { session_id, platform, peer_id, outbound: rx }
    }

    /// Routes a packet to every peer of its session on another platform
    /// than the sender's: each such peer's channel is handed the packet's
    /// bytes. Peers whose channel is closed are pruned from the session; a
    /// packet for an unknown session is dropped.
    pub fn route(&mut self, pkt: &CrpPacket)
        ensures
            final(self).next_peer_id() == old(self).next_peer_id(),
            old(self).wf() ==> final(self).wf(),
            !old(self)@.contains_key(pkt.session_id) ==> final(self)@ == old(self)@ && final(self).sent() == old(self).sent(),
            old(self)@.contains_key(pkt.session_id) ==> exists|alive: Seq<bool>|
                is_route_outcome(old(self)@[pkt.session_id], pkt.platform, alive)
                && final(self)@ == old(self)@.insert(
                    pkt.session_id,
                    select(old(self)@[pkt.session_id], alive),
                )
                && sends_added(
                    old(self).sent(),
                    final(self).sent(),
                    route_log(old(self)@[pkt.session_id], pkt.platform, crp_encode(pkt@), alive),
                ),
    {
        let encoded = bytes_from_vec(pkt.encode());
        let peers = match peer_table_get(&self.sessions, pkt.session_id) {
            Some(p) => p,
            None => return,
        };
        let ghost ps = peers@;
        let ghost b = crp_encode(pkt@);
        let n = peers.len();
        let mut alive: Vec<bool> = Vec::new();
        let mut any_dead = false;
        let mut i: usize = 0;
        proof {
            lemma_sends_added_none(self.sent@);
            assert(route_log(ps.take(0), pkt.platform, b, alive@) =~= Seq::<(PeerTx, Seq<u8>, bool)>::empty());
        }
        while i < n
            invariant
                n == peers@.len(),
                ps == peers@,
                b == bytes_content(encoded),
                0 <= i <= n,
                alive@.len() == i,
                forall|j: int| 0 <= j < i && ps[j].1 == pkt.platform ==> #[trigger] alive@[j],
                !any_dead ==> forall|j: int| 0 <= j < i ==> #[trigger] alive@[j],
                self.sessions == old(self).sessions,
                self.next_peer_id == old(self).next_peer_id,
                sends_added(old(self).sent@, self.sent@, route_log(ps.take(i as int), pkt.platform, b, alive@)),
            decreases n - i,
        {
            proof {
                assert(ps.take(i + 1).drop_last() =~= ps.take(i as int));
                assert(ps.take(i + 1).last() == ps[i as int]);
            }
            let ghost prev = alive@;
            if peers[i].1 == pkt.platform {
                // no echo
                alive.push(true);
                proof {
                    assert(alive@.drop_last() =~= prev);
                }
            } else {
                let (ok, receipt) = peer_send(&peers[i].2, bytes_clone(&encoded));
                alive.push(ok);
                let ghost sent_before = self.sent@;
                self.sent = Ghost(self.sent@.push(receipt@));
                proof {
                    assert(alive@.drop_last() =~= prev);
                    lemma_sends_added_push(
                        old(self).sent@,
                        sent_before,
                        route_log(ps.take(i as int), pkt.platform, b, prev),
                        receipt@,
                        (ps[i as int].2, b, ok),
                    );
                }
                if !ok {
                    any_dead = true;
                }
            }
            i = i + 1;
        }
        proof {
            assert(ps.take(n as int) =~= ps);
        }
        if any_dead {
            self.retain_alive(pkt.session_id, &alive);
        } else {
            proof {
                lemma_select_all(ps, alive@);
                assert(old(self)@.insert(pkt.session_id, ps) =~= old(self)@);
            }
        }
        assert(is_route_outcome(old(self)@[pkt.session_id], pkt.platform, alive@));
    }

    /// Keeps, in a session, the peers whose flag in `alive` is set. Nothing
    /// changes when the router does not hold the session or when `alive`
    /// does not have one flag per peer. Nothing is sent.
    pub fn retain_alive(&mut self, session_id: u64, alive: &Vec<bool>)
        ensures
            final(self).next_peer_id() == old(self).next_peer_id(),
            final(self).sent() == old(self).sent(),
            old(self).wf() ==> final(self).wf(),
            old(self)@.contains_key(session_id) && alive@.len() == old(self)@[session_id].len()
                ==> final(self)@ == old(self)@.insert(session_id, select(old(self)@[session_id], alive@)),
            !(old(self)@.contains_key(session_id) && alive@.len() == old(self)@[session_id].len())
                ==> final(self)@ == old(self)@,
    {
        let peers = match peer_table_get(&self.sessions, session_id) {
            Some(p) => p,
            None => return,
        };
        if alive.len() != peers.len() {
            return;
        }
        let n = peers.len();
        let ghost ps = peers@;
        let mut kept: Vec<(u64, Platform, PeerTx)> = Vec::new();
        let mut i: usize = 0;
        while i < n
            invariant
                n == peers@.len(),
                n == alive@.len(),
                ps == peers@,
                0 <= i <= n,
                kept@ == select(ps.take(i as int), alive@.take(i as int)),
            decreases n - i,
        {
            proof {
                assert(ps.take(i + 1).drop_last() =~= ps.take(i as int));
                assert(alive@.take(i + 1).drop_last() =~= alive@.take(i as int));
            }
            let ghost before = kept@;
            if alive[i] {
                kept.push((peers[i].0, peers[i].1, peer_tx_clone(&peers[i].2)));
                proof {
                    assert(kept@ =~= before.push(ps[i as int]));
                }
            }
            i = i + 1;
        }
        proof {
            assert(ps.take(n as int) =~= ps);
            assert(alive@.take(n as int) =~= alive@);
        }
        peer_table_insert(&mut self.sessions, session_id, kept);
        proof {
            if old(self).wf() {
                let t = self@;
                let o = old(self)@;
                lemma_select_contained(ps, alive@);
                assert forall|k: u64, j: int| #![trigger t[k][j]] t.contains_key(k) && 0 <= j < t[k].len()
                    implies t[k][j].0 < self.next_peer_id by {
                    if k == session_id {
                        assert(ps.contains(t[k][j]));
                        let x = choose|x: int| 0 <= x < ps.len() && ps[x] == t[k][j];
                        assert(o[k][x].0 < self.next_peer_id);
                    } else {
                        assert(o[k][j].0 < self.next_peer_id);
                    }
                }
            }
        }
    }

    /// Deregisters peer `peer_id` from a session. When the peer was there
    /// and the session still has peers, the new roster is broadcast to
    /// them; then every session left with no peers is closed.
    pub fn leave(&mut self, session_id: u64, peer_id: u64)
        ensures
            final(self)@ == leave_spec(old(self)@, session_id, peer_id),
            final(self).next_peer_id() == old(self).next_peer_id(),
            old(self).wf() ==> final(self).wf(),
            has_peer(peers_in(old(self)@, session_id), peer_id)
                ==> roster_sent(final(self)@, session_id, old(self).sent(), final(self).sent()),
            !has_peer(peers_in(old(self)@, session_id), peer_id) ==> final(self).sent() == old(self).sent(),
    {
        let ghost t0 = old(self)@;
        if let Some(peers) = peer_table_get(&self.sessions, session_id) {
            let n = peers.len();
            let ghost ps = peers@;
            let mut kept: Vec<(u64, Platform, PeerTx)> = Vec::new();
            let mut found = false;
            let mut i: usize = 0;
            while i < n
                invariant
                    n == peers@.len(),
                    ps == peers@,
                    0 <= i <= n,
                    kept@ == without_peer(ps.take(i as int), peer_id),
                    found == has_peer(ps.take(i as int), peer_id),
                decreases n - i,
            {
                proof {
                    assert(ps.take(i + 1).drop_last() =~= ps.take(i as int));
                    assert(ps.take(i + 1).last() == ps[i as int]);
                    reveal_with_fuel(Seq::filter, 1);
                }
                let ghost before = kept@;
                let ghost was_found = found;
                if peers[i].0 != peer_id {
                    kept.push((peers[i].0, peers[i].1, peer_tx_clone(&peers[i].2)));
                    proof {
                        assert(kept@ =~= before.push(ps[i as int]));
                    }
                } else {
                    found = true;
                }
                proof {
                    let pre = ps.take(i as int);
                    let post = ps.take(i + 1);
                    if has_peer(post, peer_id) && !was_found {
                        let j = choose|j: int| 0 <= j < post.len() && #[trigger] post[j].0 == peer_id;
                        if j < i {
                            assert(pre[j].0 == peer_id);
                        }
                    }
                    if was_found {
                        let j = choose|j: int| 0 <= j < pre.len() && #[trigger] pre[j].0 == peer_id;
                        assert(post[j].0 == peer_id);
                    }
                    if found {
                        assert(post[i as int].0 == peer_id || was_found);
                    }
                }
                i = i + 1;
            }
            proof {
                assert(ps.take(n as int) =~= ps);
            }
            let remaining = kept.len();
            peer_table_insert(&mut self.sessions, session_id, kept);
            proof {
                if old(self).wf() {
                    let t = self@;
                    let f = without_peer(ps, peer_id);
                    assert forall|k: u64, j: int| #![trigger t[k][j]] t.contains_key(k) && 0 <= j < t[k].len()
                        implies t[k][j].0 < self.next_peer_id by {
                        if k == session_id {
                            lemma_without_peer_contained(ps, peer_id);
                            assert(ps.contains(f[j]));
                            let x = choose|x: int| 0 <= x < ps.len() && ps[x] == f[j];
                            assert(t0[k][x].0 < self.next_peer_id);
                        } else {
                            assert(t0[k][j].0 < self.next_peer_id);
                        }
                    }
                }
            }
            if found && remaining > 0 {
                self.broadcast_session_state(session_id);
            }
        }
        let ghost t1 = self@;
        peer_table_retain_nonempty(&mut self.sessions);
        proof {
            let t = self@;
            if t0.contains_key(session_id) {
                assert(t1 == t0.insert(session_id, without_peer(t0[session_id], peer_id)));
            } else {
                assert(t1 == t0);
            }
            assert(t =~= leave_spec(t0, session_id, peer_id));
            if old(self).wf() {
                assert(t.dom().subset_of(t1.dom()));
                vstd::set_lib::lemma_set_subset_finite(t1.dom(), t.dom());
                assert forall|k: u64, j: int| #![trigger t[k][j]] t.contains_key(k) && 0 <= j < t[k].len()
                    implies t[k][j].0 < self.next_peer_id by {
                    assert(t1[k][j] == t[k][j]);
                }
            }
        }
    }

    /// Sends `data` to every peer of a session, the sender included. Used
    /// for roster updates so that everyone has the full roster. The peers
    /// stay, whether or not a peer's channel is closed.
    pub fn broadcast(&mut self, session_id: u64, data: Bytes)
        ensures
            final(self)@ == old(self)@,
            final(self).next_peer_id() == old(self).next_peer_id(),
            old(self)@.contains_key(session_id) ==> exists|oks: Seq<bool>|
                oks.len() == old(self)@[session_id].len()
                && sends_added(
                    old(self).sent(),
                    final(self).sent(),
                    broadcast_log(old(self)@[session_id], bytes_content(data), oks),
                ),
            !old(self)@.contains_key(session_id) ==> final(self).sent() == old(self).sent(),
    {
        if let Some(peers) = peer_table_get(&self.sessions, session_id) {
            let ghost ps = peers@;
            let ghost b = bytes_content(data);
            let ghost mut oks: Seq<bool> = Seq::empty();
            let n = peers.len();
            let mut i: usize = 0;
            proof {
                lemma_sends_added_none(self.sent@);
                assert(broadcast_log(ps.take(0), b, oks) =~= Seq::<(PeerTx, Seq<u8>, bool)>::empty());
            }
            while i < n
                invariant
                    n == peers@.len(),
                    ps == peers@,
                    b == bytes_content(data),
                    0 <= i <= n,
                    oks.len() == i,
                    self.sessions == old(self).sessions,
                    self.next_peer_id == old(self).next_peer_id,
                    sends_added(old(self).sent@, self.sent@, broadcast_log(ps.take(i as int), b, oks)),
                decreases n - i,
            {
                let (ok, receipt) = peer_send(&peers[i].2, bytes_clone(&data));
                let ghost sent_before = self.sent@;
                self.sent = Ghost(self.sent@.push(receipt@));
                proof {
                    lemma_sends_added_push(
                        old(self).sent@,
                        sent_before,
                        broadcast_log(ps.take(i as int), b, oks),
                        receipt@,
                        (ps[i as int].2, b, ok),
                    );
                    assert(broadcast_log(ps.take(i as int), b, oks).push((ps[i as int].2, b, ok))
                        =~= broadcast_log(ps.take(i + 1), b, oks.push(ok)));
                    oks = oks.push(ok);
                }
                i = i + 1;
            }
            proof {
                assert(ps.take(n as int) =~= ps);
            }
        }
    }

    /// Builds the session's roster packet and broadcasts it to all the
    /// session's peers.
    fn broadcast_session_state(&mut self, session_id: u64)
        ensures
            final(self)@ == old(self)@,
            final(self).next_peer_id() == old(self).next_peer_id(),
            roster_sent(old(self)@, session_id, old(self).sent(), final(self).sent()),
    {
        let peers = match peer_table_get(&self.sessions, session_id) {
            Some(p) => p,
            None => return,
        };
        let ghost ps = peers@;
        let mut roster: Vec<Platform> = Vec::new();
        let n = peers.len();
        let mut i: usize = 0;
        while i < n
            invariant
                n == peers@.len(),
                ps == peers@,
                0 <= i <= n,
                roster@ == roster_of(ps.take(i as int)),
            decreases n - i,
        {
            roster.push(peers[i].1);
            proof {
                assert(roster@ =~= roster_of(ps.take(i + 1)));
            }
            i = i + 1;
        }
        proof {
            assert(ps.take(n as int) =~= ps);
        }
        if let Some(pkt) = session_state_packet(session_id, &roster) {
            let bytes = bytes_from_vec(pkt.encode());
            proof {
                assert(pkt@ == (CrpPacketView {
                    version: CRP_VERSION,
                    platform: Platform::Roblox,
                    session_id,
                    seq: 0,
                    event_type: CrpEventType::SessionState,
                    payload: pkt.payload@,
                }));
            }
            proof {
                assert(roster@ == roster_of(old(self)@[session_id]));
                assert(bytes_content(bytes) == roster_message(session_id, roster_of(old(self)@[session_id]))->Some_0);
            }
            self.broadcast(session_id, bytes);
        }
    }

    /// The number of sessions.
    pub fn session_count(&self) -> (r: usize)
        ensures
            r == self@.len(),
    {
        peer_table_len(&self.sessions)
    }

    /// The number of peers over all sessions (at most `usize::MAX`).
    pub fn peer_count(&self) -> (r: usize)
        ensures
            total_peers(self@) <= usize::MAX ==> r == total_peers(self@),
            total_peers(self@) > usize::MAX ==> r == usize::MAX,
    {
        let keys = peer_table_keys(&self.sessions);
        let ghost t = self@;
        proof {
            lemma_peers_of_keys_total(t, keys@);
        }
        let n = keys.len();
        let mut total: usize = 0;
        let mut i: usize = 0;
        while i < n
            invariant
                n == keys@.len(),
                0 <= i <= n,
                t == self@,
                keys@.to_set() == t.dom(),
                peers_of_keys(t, keys@.take(i as int)) <= usize::MAX ==> total == peers_of_keys(t, keys@.take(i as int)),
                peers_of_keys(t, keys@.take(i as int)) > usize::MAX ==> total == usize::MAX,
                peers_of_keys(t, keys@) == total_peers(t),
            decreases n - i,
        {
            let k = keys[i];
            proof {
                assert(keys@.take(i + 1).drop_last() =~= keys@.take(i as int));
                assert(keys@.take(i + 1).last() == k);
                assert(keys@.to_set().contains(k));
            }
            let len = match peer_table_get(&self.sessions, k) {
                Some(p) => p.len(),
                None => 0,
            };
            total = total.saturating_add(len);
            i = i + 1;
        }
        proof {
            assert(keys@.take(n as int) =~= keys@);
        }
        total
    }
}

/// `UnboundedSender::clone`: another handle on the same channel. The
/// clone holds the same channel handle, so it is the same sender.
#[verifier::external_body]
fn peer_tx_clone(tx: &PeerTx) -> (r: PeerTx)
    ensures
        r == *tx,
{
    tx.clone()
}

/// The roster packet of a session: a SessionState packet, sequence 0, with
/// the roster payload; the sender platform field is unused for broadcasts
/// and holds Roblox. The payload always prints, so the result is never
/// `None`.
pub fn session_state_packet(session_id: u64, roster: &Vec<Platform>) -> (r: Option<CrpPacket>)
    ensures
        match r {
            Some(p) => session_state_payload(session_id, roster@) == Some(p.payload@)
                && p.version == CRP_VERSION && p.platform == Platform::Roblox
                && p.session_id == session_id && p.seq == 0
                && p.event_type == CrpEventType::SessionState,
            None => session_state_payload(session_id, roster@) is None,
        },
        r is Some,
{
    let id_text = match serialize_json(&JsonValue::UInt(session_id)) {
        Some(t) => t,
        None => return None,
    };
    let mut names: Vec<Vec<u8>> = Vec::new();
    let n = roster.len();
    let mut i: usize = 0;
    while i < n
        invariant
            n == roster@.len(),
            0 <= i <= n,
            name_texts(roster@.take(i as int)) == Some(names@.map_values(|t: Vec<u8>| t@)),
            names@.len() == i,
            forall|j: int| 0 <= j < i ==> ((#[trigger] json_parse(names@[j]@)) matches Some(x) && is_scalar(x)),
        decreases n - i,
    {
        proof {
            assert(roster@.take(i + 1).drop_last() =~= roster@.take(i as int));
            assert(roster@.take(i + 1).last() == roster@[i as int]);
        }
        let name = roster[i].name().to_string();
        let ghost name_view = name@;
        let t = match serialize_json(&JsonValue::Str(name)) {
            Some(t) => t,
            None => return None,
        };
        let ghost prev = names@;
        names.push(t);
        proof {
            assert(names@.map_values(|t: Vec<u8>| t@) =~= prev.map_values(|t: Vec<u8>| t@).push(t@));
            assert(json_parse(names@[i as int]@) == Some(JsonView::Str(name_view)));
            assert forall|j: int| 0 <= j < i + 1 implies ((#[trigger] json_parse(names@[j]@)) matches Some(x) && is_scalar(x)) by {
                if j < i {
                    assert(names@[j] == prev[j]);
                }
            }
        }
        i = i + 1;
    }
    proof {
        assert(roster@.take(n as int) =~= roster@);
    }
    let ghost id_text_view = id_text@;
    proof {
        let a = names@.map_values(|t: Vec<u8>| t@);
        assert forall|j: int| 0 <= j < a.len() implies ((#[trigger] json_parse(a[j])) matches Some(x) && is_scalar(x)) by {
            assert(a[j] == names@[j]@);
        }
    }
    let roster_text = match serialize_json(&JsonValue::Array(names)) {
        Some(t) => t,
        None => return None,
    };
    let fields: Vec<(String, Vec<u8>)> = vec![("session_id".to_string(), id_text), ("roster".to_string(), roster_text)];
    proof {
        reveal_strlit("session_id");
        reveal_strlit("roster");
        let f = fields@.map_values(|e: (String, Vec<u8>)| (e.0@, e.1@));
        assert(f =~= seq![("session_id"@, id_text@), ("roster"@, roster_text@)]);
        assert forall|j: int| 0 <= j < f.len() implies (#[trigger] json_parse(f[j].1)) is Some by {
            if j == 0 {
                assert(f[j].1 == id_text_view);
            } else {
                assert(f[j].1 == roster_text@);
            }
        }
    }
    let payload = match serialize_json(&JsonValue::Object(fields)) {
        Some(p) => p,
        None => return None,
    };
    Some(
        CrpPacket {
            version: CRP_VERSION,
            platform: Platform::Roblox,
            session_id,
            seq: 0,
            event_type: CrpEventType::SessionState,
            payload,
        },
    )
}

impl Default for Router {
    fn default() -> (r: Self)
        ensures
            r@.dom() == Set::<u64>::empty(),
            r.next_peer_id() == 1,
            r.sent() == Seq::<SendReceipt>::empty(),
            r.wf(),
    {
        Self::new()
    }
}

} // verus!
