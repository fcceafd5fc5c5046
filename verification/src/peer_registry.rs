//! Peer registry: the players active on one adapter, and their sessions.
//!
//! It does not hold the peers' handles (each player's outbound pump owns
//! its handle); it maps player ids to session ids, for Join dedup and Leave,
//! and to the ids their peers got in the router, so that a Leave can
//! deregister the peer.

use vstd::prelude::*;
use dashmap::DashMap;
use crate::tables::{id_table, id_table_new, id_table_get, id_table_contains, id_table_insert, id_table_remove};

verus! {

pub struct PeerRegistry {
    /// player_id -> session_id
    inner: DashMap<String, u64>,
    /// player_id -> the player's peer id in the router
    peer_ids: DashMap<String, u64>,
}

impl View for PeerRegistry {
    type V = Map<Seq<char>, u64>;

    closed spec fn view(&self) -> Map<Seq<char>, u64> {
        id_table(self.inner)
    }
}

impl PeerRegistry {
    /// Each recorded player's peer id in the router.
    pub closed spec fn peer_ids(&self) -> Map<Seq<char>, u64> {
        id_table(self.peer_ids)
    }

    pub fn new() -> (r: Self)
        ensures
            r@.dom() == Set::<Seq<char>>::empty(),
            r.peer_ids().dom() == Set::<Seq<char>>::empty(),
    {
        PeerRegistry { inner: id_table_new(), peer_ids: id_table_new() }
    }

    /// Records a player's session, replacing any earlier one.
    pub fn insert_id(&mut self, player_id: String, session_id: u64)
        ensures
            final(self)@ == old(self)@.insert(player_id@, session_id),
            final(self).peer_ids() == old(self).peer_ids(),
    {
        id_table_insert(&mut self.inner, player_id, session_id);
    }

    /// Records a player's peer id in the router, replacing any earlier one.
    pub fn insert_peer_id(&mut self, player_id: String, peer_id: u64)
        ensures
            final(self)@ == old(self)@,
            final(self).peer_ids() == old(self).peer_ids().insert(player_id@, peer_id),
    {
        id_table_insert(&mut self.peer_ids, player_id, peer_id);
    }

    /// Forgets a player.
    pub fn remove(&mut self, player_id: &str)
        ensures
            final(self)@ == old(self)@.remove(player_id@),
            final(self).peer_ids() == old(self).peer_ids().remove(player_id@),
    {
        let _ = id_table_remove(&mut self.inner, player_id);
        let _ = id_table_remove(&mut self.peer_ids, player_id);
    }

    /// Whether a player is recorded.
    pub fn contains(&self, player_id: &str) -> (r: bool)
        ensures
            r == self@.contains_key(player_id@),
    {
        id_table_contains(&self.inner, player_id)
    }

    /// The session recorded for a player.
    pub fn session_id_for(&self, player_id: &str) -> (r: Option<u64>)
        ensures
            r == self@.get(player_id@),
    {
        id_table_get(&self.inner, player_id)
    }

    /// The peer id recorded for a player.
    pub fn peer_id_for(&self, player_id: &str) -> (r: Option<u64>)
        ensures
            r == self.peer_ids().get(player_id@),
    {
        id_table_get(&self.peer_ids, player_id)
    }
}

/// Removing a player undoes recording a player who was not recorded, and
/// after recording, the player's session is the one recorded.
pub proof fn lemma_remove_undoes_insert(peers: Map<Seq<char>, u64>, player: Seq<char>, session_id: u64)
    requires
        !peers.contains_key(player),
    ensures
        peers.insert(player, session_id).remove(player) == peers,
        peers.insert(player, session_id).get(player) == Some(session_id),
{
    assert(peers.insert(player, session_id).remove(player) =~= peers);
}

impl Default for PeerRegistry {
    fn default() -> (r: Self)
        ensures
            r@.dom() == Set::<Seq<char>>::empty(),
            r.peer_ids().dom() == Set::<Seq<char>>::empty(),
    {
        Self::new()
    }
}

} // verus!
