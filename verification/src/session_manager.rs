//! Session manager: sits between the adapters and the router.
//!
//! It hands out session ids, answers the Join handshake, maps each player to
//! a session and enforces the session limits.
//!
//! Flow:
//!   1. An adapter receives a Join packet from a platform client
//!   2. The dispatch loop calls `SessionManager::on_join`
//!   3. The session manager returns a session id (new or existing)
//!   4. The dispatch loop calls `Router::join(session_id, platform)`
//!   5. Further packets are routed with `Router::route`

use vstd::prelude::*;
use dashmap::DashMap;
use crate::tables::{
    id_table, count_table, nonzero_counts, id_table_new, id_table_get, id_table_insert,
    id_table_remove, id_table_len, count_table_new, count_table_get, count_table_insert,
    count_table_len, count_table_retain_occupied,
};

verus! {

/// Max players per session across all platforms (3v3v3).
pub const MAX_SESSION_PLAYERS: usize = 9;

/// Max concurrent sessions on this relay instance.
pub const MAX_SESSIONS: usize = 1000;

/// The outcome of a Join.
#[derive(Debug, Clone, Copy, PartialEq, Eq, Structural)]
pub enum JoinResult {
    /// Player joined an existing or new session. Here's the session_id.
    Joined(u64),
    /// Player is already in a session: idempotent, returns the same id.
    AlreadyJoined(u64),
    /// The invited session is not open.
    SessionNotFound,
    /// Session is full.
    SessionFull,
    /// Relay is at capacity.
    RelaySaturated,
}

/// What a session manager holds: each player's session, each session's
/// player count, and the id the next new session gets.
pub struct SessionsView {
    pub players: Map<Seq<char>, u64>,
    pub counts: Map<u64, usize>,
    pub next_id: u64,
}

/// The count recorded for a session; 0 for a session with no entry.
pub open spec fn count_of(counts: Map<u64, usize>, id: u64) -> usize {
    if counts.contains_key(id) {
        counts[id]
    } else {
        0
    }
}

/// The first id, trying `start` and then each next id (wrapping after
/// u64::MAX), at most `tries` of them, that no open session has.
pub open spec fn first_free(counts: Map<u64, usize>, start: u64, tries: nat) -> Option<u64>
    decreases tries,
{
    if tries == 0 {
        None
    } else if !counts.contains_key(start) {
        Some(start)
    } else {
        first_free(counts, start.wrapping_add(1), (tries - 1) as nat)
    }
}

/// How many ids a new session's id is searched among: one more than there
/// can be open sessions, so the search always finds one.
pub open spec fn id_search_len() -> nat {
    (MAX_SESSIONS + 1) as nat
}

/// A Join of `player`, invited to `invite` or asking for a new session.
/// A player who is in a session gets that session back and nothing changes.
/// An invited player joins the invited session when it is open and its
/// count has not reached MAX_SESSION_PLAYERS. A player with no invite opens a new session, unless
/// MAX_SESSIONS sessions are open: its id is the first, from the counter on,
/// that no open session has, and the counter moves past it.
pub open spec fn on_join_spec(v: SessionsView, player: Seq<char>, invite: Option<u64>) -> (JoinResult, SessionsView) {
    if v.players.contains_key(player) {
        (JoinResult::AlreadyJoined(v.players[player]), v)
    } else {
        match invite {
            Some(id) => {
                let count = count_of(v.counts, id);
                if !v.counts.contains_key(id) {
                    (JoinResult::SessionNotFound, v)
                } else if count >= MAX_SESSION_PLAYERS {
                    (JoinResult::SessionFull, v)
                } else {
                    (
                        JoinResult::Joined(id),
                        SessionsView {
                            players: v.players.insert(player, id),
                            counts: v.counts.insert(id, (count + 1) as usize),
                            next_id: v.next_id,
                        },
                    )
                }
            },
            None => {
                if v.counts.len() >= MAX_SESSIONS {
                    (JoinResult::RelaySaturated, v)
                } else {
                    match first_free(v.counts, v.next_id, id_search_len()) {
                        Some(id) => (
                            JoinResult::Joined(id),
                            SessionsView {
                                players: v.players.insert(player, id),
                                counts: v.counts.insert(id, 1),
                                next_id: id.wrapping_add(1),
                            },
                        ),
                        None => (JoinResult::RelaySaturated, v),
                    }
                }
            },
        }
    }
}

/// A Leave of `player`: the player leaves its session, whose count drops by
/// one (not below zero), and every session left with no players is closed.
/// Leaving when in no session changes nothing.
pub open spec fn on_leave_spec(v: SessionsView, player: Seq<char>) -> SessionsView {
    if !v.players.contains_key(player) {
        v
    } else {
        let id = v.players[player];
        let counts = if v.counts.contains_key(id) {
            v.counts.insert(id, v.counts[id].saturating_sub(1))
        } else {
            v.counts
        };
        SessionsView { players: v.players.remove(player), counts: nonzero_counts(counts), next_id: v.next_id }
    }
}

/// The players in session `id`.
pub open spec fn players_of(players: Map<Seq<char>, u64>, id: u64) -> Set<Seq<char>> {
    players.dom().filter(|p: Seq<char>| players[p] == id)
}

/// The manager's tables are finite; every player is in an open session;
/// every open session's count is the number of its players, between 1 and
/// MAX_SESSION_PLAYERS.
pub open spec fn sessions_wf(v: SessionsView) -> bool {
    &&& v.players.dom().finite()
    &&& v.counts.dom().finite()
    &&& forall|p: Seq<char>| #[trigger] v.players.contains_key(p) ==> v.counts.contains_key(v.players[p])
    &&& forall|id: u64| #[trigger] v.counts.contains_key(id) ==> {
        &&& 1 <= v.counts[id] <= MAX_SESSION_PLAYERS
        &&& v.counts[id] == players_of(v.players, id).len()
    }
}

/// Adding a player to session `id` adds it to that session's players and
/// to no other's.
proof fn lemma_players_of_insert(players: Map<Seq<char>, u64>, p: Seq<char>, id: u64)
    requires
        players.dom().finite(),
        !players.contains_key(p),
    ensures
        players_of(players.insert(p, id), id) == players_of(players, id).insert(p),
        players_of(players, id).len() + 1 == players_of(players.insert(p, id), id).len(),
        forall|k: u64| k != id ==> #[trigger] players_of(players.insert(p, id), k) == players_of(players, k),
{
    let q = players.insert(p, id);
    assert(players_of(q, id) =~= players_of(players, id).insert(p));
    players.dom().lemma_len_filter(|x: Seq<char>| players[x] == id);
    assert forall|k: u64| k != id implies #[trigger] players_of(q, k) == players_of(players, k) by {
        assert(players_of(q, k) =~= players_of(players, k));
    }
}

/// Removing a player takes it out of its session's players and out of no
/// other's.
proof fn lemma_players_of_remove(players: Map<Seq<char>, u64>, p: Seq<char>)
    requires
        players.dom().finite(),
        players.contains_key(p),
    ensures
        players_of(players.remove(p), players[p]) == players_of(players, players[p]).remove(p),
        players_of(players.remove(p), players[p]).len() + 1 == players_of(players, players[p]).len(),
        forall|k: u64| k != players[p] ==> #[trigger] players_of(players.remove(p), k) == players_of(players, k),
{
    let q = players.remove(p);
    let id = players[p];
    assert(players_of(q, id) =~= players_of(players, id).remove(p));
    players.dom().lemma_len_filter(|x: Seq<char>| players[x] == id);
    assert(players_of(players, id).contains(p));
    assert forall|k: u64| k != id implies #[trigger] players_of(q, k) == players_of(players, k) by {
        assert(players_of(q, k) =~= players_of(players, k));
    }
}

/// The id a search finds is not an open session's.
proof fn lemma_first_free_fresh(counts: Map<u64, usize>, start: u64, tries: nat)
    ensures
        first_free(counts, start, tries) matches Some(id) ==> !counts.contains_key(id),
    decreases tries,
{
    if tries > 0 && counts.contains_key(start) {
        lemma_first_free_fresh(counts, start.wrapping_add(1), (tries - 1) as nat);
    }
}

/// The ids `start`, `start + 1`, ... (wrapping), `n` of them.
spec fn id_run(start: u64, n: nat) -> Seq<u64> {
    Seq::new(n, |j: int| ((start + j) % 0x1_0000_0000_0000_0000) as u64)
}

/// A search over `tries` ids fails only when every one of them is taken.
proof fn lemma_first_free_none(counts: Map<u64, usize>, start: u64, tries: nat)
    requires
        first_free(counts, start, tries) is None,
    ensures
        forall|j: int| 0 <= j < tries ==> counts.contains_key(#[trigger] id_run(start, tries)[j]),
    decreases tries,
{
    if tries > 0 {
        let next = start.wrapping_add(1);
        lemma_first_free_none(counts, next, (tries - 1) as nat);
        assert forall|j: int| 0 <= j < tries implies counts.contains_key(#[trigger] id_run(start, tries)[j]) by {
            if j > 0 {
                assert(id_run(start, tries)[j] == id_run(next, (tries - 1) as nat)[j - 1]);
            }
        }
    }
}

/// The ids of a run shorter than 2^64 are distinct.
proof fn lemma_id_run_distinct(start: u64, n: nat)
    requires
        n <= 0x1_0000_0000_0000_0000,
    ensures
        id_run(start, n).no_duplicates(),
{
    assert forall|i: int, j: int| 0 <= i < id_run(start, n).len() && 0 <= j < id_run(start, n).len() && i != j
        implies id_run(start, n)[i] != id_run(start, n)[j] by {
        let a = start + i;
        let b = start + j;
        assert(a % 0x1_0000_0000_0000_0000 != b % 0x1_0000_0000_0000_0000) by (nonlinear_arith)
            requires
                0 <= start < 0x1_0000_0000_0000_0000,
                0 <= i < n,
                0 <= j < n,
                i != j,
                n <= 0x1_0000_0000_0000_0000,
                a == start + i,
                b == start + j,
        ;
    }
}

/// While fewer than MAX_SESSIONS sessions are open, the search for a new
/// session's id always finds one.
pub proof fn lemma_new_session_id_found(counts: Map<u64, usize>, start: u64)
    requires
        counts.dom().finite(),
        counts.len() < MAX_SESSIONS,
    ensures
        first_free(counts, start, id_search_len()) is Some,
{
    if first_free(counts, start, id_search_len()) is None {
        let run = id_run(start, id_search_len());
        lemma_first_free_none(counts, start, id_search_len());
        lemma_id_run_distinct(start, id_search_len());
        run.unique_seq_to_set();
        assert(run.to_set().subset_of(counts.dom())) by {
            assert forall|x: u64| run.to_set().contains(x) implies counts.dom().contains(x) by {
                let j = choose|j: int| 0 <= j < run.len() && run[j] == x;
                assert(counts.contains_key(run[j]));
            }
        }
        vstd::set_lib::lemma_len_subset(run.to_set(), counts.dom());
    }
}

/// A Join and a Leave keep the manager's tables well formed: every session
/// counts its players, and holds between 1 and MAX_SESSION_PLAYERS of them.
pub proof fn lemma_session_limits_hold(v: SessionsView, player: Seq<char>, invite: Option<u64>)
    requires
        sessions_wf(v),
    ensures
        sessions_wf(on_join_spec(v, player, invite).1),
        sessions_wf(on_leave_spec(v, player)),
{
    lemma_join_keeps_wf(v, player, invite);
    lemma_leave_keeps_wf(v, player);
}

proof fn lemma_join_keeps_wf(v: SessionsView, player: Seq<char>, invite: Option<u64>)
    requires
        sessions_wf(v),
    ensures
        sessions_wf(on_join_spec(v, player, invite).1),
{
    let (r, w) = on_join_spec(v, player, invite);
    if let JoinResult::Joined(id) = r {
        if invite is None {
            lemma_first_free_fresh(v.counts, v.next_id, id_search_len());
        }
        lemma_players_of_insert(v.players, player, id);
        if !v.counts.contains_key(id) {
            assert(players_of(v.players, id) =~= Set::<Seq<char>>::empty()) by {
                assert forall|p: Seq<char>| !#[trigger] players_of(v.players, id).contains(p) by {
                    if players_of(v.players, id).contains(p) {
                        assert(v.players.contains_key(p));
                    }
                }
            }
        }
        assert forall|k: u64| #[trigger] w.counts.contains_key(k) implies {
            &&& 1 <= w.counts[k] <= MAX_SESSION_PLAYERS
            &&& w.counts[k] == players_of(w.players, k).len()
        } by {
            if k != id {
                assert(v.counts.contains_key(k));
            }
        }
        assert forall|p: Seq<char>| #[trigger] w.players.contains_key(p) implies w.counts.contains_key(w.players[p]) by {
            if p != player {
                assert(v.players.contains_key(p));
            }
        }
    }
}

proof fn lemma_leave_keeps_wf(v: SessionsView, player: Seq<char>)
    requires
        sessions_wf(v),
    ensures
        sessions_wf(on_leave_spec(v, player)),
{
    let w = on_leave_spec(v, player);
    if v.players.contains_key(player) {
        let id = v.players[player];
        assert(v.counts.contains_key(id));
        let c = v.counts.insert(id, v.counts[id].saturating_sub(1));
        lemma_players_of_remove(v.players, player);
        assert(w.counts.dom().subset_of(c.dom()));
        vstd::set_lib::lemma_set_subset_finite(c.dom(), w.counts.dom());
        assert forall|k: u64| #[trigger] w.counts.contains_key(k) implies {
            &&& 1 <= w.counts[k] <= MAX_SESSION_PLAYERS
            &&& w.counts[k] == players_of(w.players, k).len()
        } by {
            assert(c.contains_key(k) && c[k] > 0);
            if k != id {
                assert(v.counts.contains_key(k));
            }
        }
        assert forall|p: Seq<char>| #[trigger] w.players.contains_key(p) implies w.counts.contains_key(w.players[p]) by {
            let k = w.players[p];
            assert(v.players.contains_key(p) && v.players[p] == k);
            assert(v.counts.contains_key(k));
            if k == id {
                assert(players_of(w.players, id).contains(p));
                vstd::set_lib::lemma_set_empty_equivalency_len(players_of(w.players, id));
            }
            assert(c[k] > 0);
        }
    }
}

/// A player who is in a session and joins again gets that session back, and
/// nothing changes.
pub proof fn lemma_join_idempotent(v: SessionsView, player: Seq<char>, invite: Option<u64>)
    requires
        v.players.contains_key(player),
    ensures
        on_join_spec(v, player, invite) == (JoinResult::AlreadyJoined(v.players[player]), v),
{
}

/// A Join into a session that has MAX_SESSION_PLAYERS players is refused
/// and changes nothing.
pub proof fn lemma_full_session_refuses(v: SessionsView, player: Seq<char>, id: u64)
    requires
        sessions_wf(v),
        !v.players.contains_key(player),
        players_of(v.players, id).len() >= MAX_SESSION_PLAYERS,
    ensures
        on_join_spec(v, player, Some(id)) == (JoinResult::SessionFull, v),
{
    if !v.counts.contains_key(id) {
        assert(players_of(v.players, id) =~= Set::<Seq<char>>::empty()) by {
            assert forall|p: Seq<char>| !#[trigger] players_of(v.players, id).contains(p) by {
                if players_of(v.players, id).contains(p) {
                    assert(v.players.contains_key(p));
                }
            }
        }
    }
}

/// An invite to a session that is not open is refused and changes nothing.
pub proof fn lemma_unknown_session_refuses(v: SessionsView, player: Seq<char>, id: u64)
    requires
        !v.players.contains_key(player),
        !v.counts.contains_key(id),
    ensures
        on_join_spec(v, player, Some(id)) == (JoinResult::SessionNotFound, v),
{
}

/// After a Join that succeeds, the player is in the session it was given;
/// a new session's id is one that no session had.
pub proof fn lemma_join_records_session(v: SessionsView, player: Seq<char>, invite: Option<u64>)
    ensures
        match on_join_spec(v, player, invite).0 {
            JoinResult::Joined(id) => on_join_spec(v, player, invite).1.players.get(player) == Some(id),
            JoinResult::AlreadyJoined(id) => on_join_spec(v, player, invite).1.players.get(player) == Some(id),
            _ => !on_join_spec(v, player, invite).1.players.contains_key(player),
        },
        invite is None && !v.players.contains_key(player) && on_join_spec(v, player, invite).0 is Joined
            ==> !v.counts.contains_key(on_join_spec(v, player, invite).0->Joined_0),
{
    lemma_first_free_fresh(v.counts, v.next_id, id_search_len());
}

/// A Join with no invite is refused only when MAX_SESSIONS sessions are
/// open.
pub proof fn lemma_new_session_unless_saturated(v: SessionsView, player: Seq<char>)
    requires
        sessions_wf(v),
        !v.players.contains_key(player),
    ensures
        on_join_spec(v, player, None).0 is RelaySaturated <==> v.counts.len() >= MAX_SESSIONS,
{
    if v.counts.len() < MAX_SESSIONS {
        lemma_new_session_id_found(v.counts, v.next_id);
    }
}

/// A Leave undoes a Join of a player who was in no session: the players and
/// the session counts are as they were (only the id counter may have moved
/// on).
pub proof fn lemma_leave_undoes_join(v: SessionsView, player: Seq<char>, invite: Option<u64>)
    requires
        sessions_wf(v),
        !v.players.contains_key(player),
        on_join_spec(v, player, invite).0 is Joined,
    ensures
        on_leave_spec(on_join_spec(v, player, invite).1, player).players == v.players,
        on_leave_spec(on_join_spec(v, player, invite).1, player).counts == v.counts,
{
    let w = on_join_spec(v, player, invite).1;
    let u = on_leave_spec(w, player);
    let id = w.players[player];
    lemma_first_free_fresh(v.counts, v.next_id, id_search_len());
    let c = w.counts.insert(id, w.counts[id].saturating_sub(1));
    assert(u.players =~= v.players);
    assert forall|k: u64| #[trigger] u.counts.contains_key(k) <==> v.counts.contains_key(k) by {
        if k != id && v.counts.contains_key(k) {
            assert(c.contains_key(k) && c[k] > 0);
        }
    }
    assert(u.counts =~= v.counts);
}

/// A Leave of a player who is in no session changes nothing.
pub proof fn lemma_leave_unknown_player(v: SessionsView, player: Seq<char>)
    requires
        !v.players.contains_key(player),
    ensures
        on_leave_spec(v, player) == v,
{
}

pub struct SessionManager {
    /// player_id -> session_id
    player_sessions: DashMap<String, u64>,
    /// session_id -> player count
    session_counts: DashMap<u64, usize>,
    /// Session id counter
    next_id: u64,
}

impl View for SessionManager {
    type V = SessionsView;

    closed spec fn view(&self) -> SessionsView {
        SessionsView {
            players: id_table(self.player_sessions),
            counts: count_table(self.session_counts),
            next_id: self.next_id,
        }
    }
}

impl SessionManager {
    pub open spec fn wf(&self) -> bool {
        sessions_wf(self@)
    }

    /// A manager with no players and no sessions; the first session id is 1.
    pub fn new() -> (m: Self)
        ensures
            m@.players.dom() == Set::<Seq<char>>::empty(),
            m@.counts.dom() == Set::<u64>::empty(),
            m@.next_id == 1,
            m.wf(),
    {
        Self { player_sessions: id_table_new(), session_counts: count_table_new(), next_id: 1 }
    }

    /// Called when a Join packet arrives.
    ///
    /// If `invite_session_id` is Some, join that session.
    /// If None, create a new session.
    pub fn on_join(&mut self, player_id: &str, invite_session_id: Option<u64>) -> (r: JoinResult)
        requires
            old(self).wf(),
        ensures
            (r, final(self)@) == on_join_spec(old(self)@, player_id@, invite_session_id),
            final(self).wf(),
    {
        // Already in a session?
        if let Some(existing) = id_table_get(&self.player_sessions, player_id) {
            return JoinResult::AlreadyJoined(existing);
        }
        let session_id = match invite_session_id {
            Some(id) => {
                // Validate session exists and has room
                let count = match count_table_get(&self.session_counts, id) {
                    Some(c) => c,
                    None => return JoinResult::SessionNotFound,
                };
                if count >= MAX_SESSION_PLAYERS {
                    return JoinResult::SessionFull;
                }
                id
            },
            None => {
                // Create a new session
                if count_table_len(&self.session_counts) >= MAX_SESSIONS {
                    return JoinResult::RelaySaturated;
                }
                let id = match self.free_session_id() {
                    Some(id) => id,
                    None => return JoinResult::RelaySaturated,
                };
                self.next_id = id.wrapping_add(1);
                count_table_insert(&mut self.session_counts, id, 0);
                id
            },
        };
        let ghost counts_before = count_table(self.session_counts);
        id_table_insert(&mut self.player_sessions, player_id.to_string(), session_id);
        match count_table_get(&self.session_counts, session_id) {
            Some(c) => count_table_insert(&mut self.session_counts, session_id, c + 1),
            None => count_table_insert(&mut self.session_counts, session_id, 1),
        }
        proof {
            let v = old(self)@;
            let w = on_join_spec(v, player_id@, invite_session_id).1;
            assert(self@.players =~= w.players);
            assert(self@.counts =~= w.counts);
            lemma_session_limits_hold(v, player_id@, invite_session_id);
        }
        JoinResult::Joined(session_id)
    }

    /// The first id, from the counter on, that no open session has, among
    /// the next `id_search_len()` ids.
    fn free_session_id(&self) -> (r: Option<u64>)
        ensures
            r == first_free(self@.counts, self@.next_id, id_search_len()),
    {
        let mut candidate = self.next_id;
        let mut k: usize = 0;
        while k < MAX_SESSIONS + 1
            invariant
                0 <= k <= MAX_SESSIONS + 1,
                first_free(self@.counts, self@.next_id, id_search_len())
                    == first_free(self@.counts, candidate, (id_search_len() - k) as nat),
            decreases MAX_SESSIONS + 1 - k,
        {
            match count_table_get(&self.session_counts, candidate) {
                None => return Some(candidate),
                Some(_) => {},
            }
            candidate = candidate.wrapping_add(1);
            k = k + 1;
        }
        None
    }

    /// Called when a Leave packet arrives or a connection drops.
    pub fn on_leave(&mut self, player_id: &str)
        requires
            old(self).wf(),
        ensures
            final(self)@ == on_leave_spec(old(self)@, player_id@),
            final(self).wf(),
    {
        if let Some(session_id) = id_table_remove(&mut self.player_sessions, player_id) {
            if let Some(count) = count_table_get(&self.session_counts, session_id) {
                count_table_insert(&mut self.session_counts, session_id, count.saturating_sub(1));
            }
            // Remove empty sessions
            count_table_retain_occupied(&mut self.session_counts);
        }
        proof {
            let v = old(self)@;
            let w = on_leave_spec(v, player_id@);
            assert(self@.players =~= w.players);
            assert(self@.counts =~= w.counts);
            lemma_session_limits_hold(v, player_id@, None);
        }
    }

    /// The session a player is in, if any.
    pub fn session_id_for(&self, player_id: &str) -> (r: Option<u64>)
        ensures
            r == self@.players.get(player_id@),
    {
        id_table_get(&self.player_sessions, player_id)
    }

    /// The number of open sessions.
    pub fn active_sessions(&self) -> (r: usize)
        ensures
            r == self@.counts.len(),
    {
        count_table_len(&self.session_counts)
    }

    /// The number of players, over all sessions.
    pub fn active_players(&self) -> (r: usize)
        ensures
            r == self@.players.len(),
    {
        id_table_len(&self.player_sessions)
    }
}

impl Default for SessionManager {
    fn default() -> (m: Self)
        ensures
            m@.players.dom() == Set::<Seq<char>>::empty(),
            m@.counts.dom() == Set::<u64>::empty(),
            m@.next_id == 1,
            m.wf(),
    {
        Self::new()
    }
}

} // verus!
