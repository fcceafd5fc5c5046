//! The concurrent maps that the relay keeps its tables in, and the calls the
//! library makes on them.
//!
//! A `DashMap` is changed through `&self`; here every call that changes one
//! takes it by `&mut`, so that what the map holds before and after the call
//! can be told apart. Each map is seen through a name for what it holds.

use vstd::prelude::*;
use dashmap::DashMap;
use crate::channel::PeerTx;
use crate::platform::Platform;

verus! {

#[verifier::external_type_specification]
#[verifier::external_body]
#[verifier::reject_recursive_types(K)]
#[verifier::reject_recursive_types(V)]
#[verifier::reject_recursive_types(S)]
pub struct ExDashMap<K, V, S>(DashMap<K, V, S>);

/// What a map from player ids to session ids holds.
pub uninterp spec fn id_table(m: DashMap<String, u64>) -> Map<Seq<char>, u64>;

/// What a map from session ids to player counts holds.
pub uninterp spec fn count_table(m: DashMap<u64, usize>) -> Map<u64, usize>;

/// `DashMap::new`: an empty map of player ids.
#[verifier::external_body]
pub(crate) fn id_table_new() -> (r: DashMap<String, u64>)
    ensures
        id_table(r).dom() == Set::<Seq<char>>::empty(),
{
    DashMap::new()
}

/// `DashMap::get` on a map of player ids: the session id stored under
/// `key`, if any.
#[verifier::external_body]
pub(crate) fn id_table_get(m: &DashMap<String, u64>, key: &str) -> (r: Option<u64>)
    ensures
        r == id_table(*m).get(key@),
{
    m.get(key).map(|v| *v)
}

/// `DashMap::contains_key` on a map of player ids.
#[verifier::external_body]
pub(crate) fn id_table_contains(m: &DashMap<String, u64>, key: &str) -> (r: bool)
    ensures
        r == id_table(*m).contains_key(key@),
{
    m.contains_key(key)
}

/// `DashMap::insert` on a map of player ids: `key` maps to `value` after,
/// every other key as before.
#[verifier::external_body]
pub(crate) fn id_table_insert(m: &mut DashMap<String, u64>, key: String, value: u64)
    ensures
        id_table(*final(m)) == id_table(*old(m)).insert(key@, value),
        id_table(*final(m)).dom().finite(),
{
    m.insert(key, value);
}

/// `DashMap::remove` on a map of player ids: `key` is gone after, and the
/// value it had is returned.
#[verifier::external_body]
pub(crate) fn id_table_remove(m: &mut DashMap<String, u64>, key: &str) -> (r: Option<u64>)
    ensures
        r == id_table(*old(m)).get(key@),
        id_table(*final(m)) == id_table(*old(m)).remove(key@),
{
    m.remove(key).map(|(_, v)| v)
}

/// `DashMap::len` on a map of player ids: the number of entries.
#[verifier::external_body]
pub(crate) fn id_table_len(m: &DashMap<String, u64>) -> (r: usize)
    ensures
        r == id_table(*m).len(),
{
    m.len()
}

/// `DashMap::new`: an empty map of session counts.
#[verifier::external_body]
pub(crate) fn count_table_new() -> (r: DashMap<u64, usize>)
    ensures
        count_table(r).dom() == Set::<u64>::empty(),
{
    DashMap::new()
}

/// `DashMap::get` on a map of session counts.
#[verifier::external_body]
pub(crate) fn count_table_get(m: &DashMap<u64, usize>, key: u64) -> (r: Option<usize>)
    ensures
        r == count_table(*m).get(key),
{
    m.get(&key).map(|v| *v)
}

/// `DashMap::insert` on a map of session counts. A map holds finitely
/// many entries.
#[verifier::external_body]
pub(crate) fn count_table_insert(m: &mut DashMap<u64, usize>, key: u64, value: usize)
    ensures
        count_table(*final(m)) == count_table(*old(m)).insert(key, value),
        count_table(*final(m)).dom().finite(),
{
    m.insert(key, value);
}

/// `DashMap::len` on a map of session counts.
#[verifier::external_body]
pub(crate) fn count_table_len(m: &DashMap<u64, usize>) -> (r: usize)
    ensures
        r == count_table(*m).len(),
{
    m.len()
}

/// The entries of a count map whose count is not zero.
pub open spec fn nonzero_counts(c: Map<u64, usize>) -> Map<u64, usize> {
    Map::new(|k: u64| c.dom().contains(k) && c[k] > 0, |k: u64| c[k])
}

/// Whether a session still has players; what `retain` keeps.
pub fn is_occupied(count: usize) -> (r: bool)
    ensures
        r == (count > 0),
{
    count > 0
}

/// `DashMap::retain` on a map of session counts, keeping the entries whose
/// count is not zero.
#[verifier::external_body]
pub(crate) fn count_table_retain_occupied(m: &mut DashMap<u64, usize>)
    ensures
        count_table(*final(m)) == nonzero_counts(count_table(*old(m))),
{
    m.retain(|_, c| is_occupied(*c));
}

/// What the router's map from session ids to peers holds: each session's
/// peers (id, platform and outbound sender), in the order they joined.
pub uninterp spec fn peer_table(m: DashMap<u64, Vec<(u64, Platform, PeerTx)>>) -> Map<u64, Seq<(u64, Platform, PeerTx)>>;

/// `DashMap::new`: an empty map of sessions.
#[verifier::external_body]
pub(crate) fn peer_table_new() -> (r: DashMap<u64, Vec<(u64, Platform, PeerTx)>>)
    ensures
        peer_table(r).dom() == Set::<u64>::empty(),
{
    DashMap::new()
}

/// `DashMap::get` on the map of sessions, copying the session's peer list.
/// Each sender is cloned; a clone of an `UnboundedSender` holds the same
/// channel handle, so it is the same sender.
#[verifier::external_body]
pub(crate) fn peer_table_get(m: &DashMap<u64, Vec<(u64, Platform, PeerTx)>>, key: u64) -> (r: Option<Vec<(u64, Platform, PeerTx)>>)
    ensures
        match r {
            Some(v) => peer_table(*m).contains_key(key) && peer_table(*m)[key] == v@,
            None => !peer_table(*m).contains_key(key),
        },
{
    m.get(&key).map(|v| v.clone())
}

/// `DashMap::insert` on the map of sessions. A map holds finitely many
/// entries.
#[verifier::external_body]
pub(crate) fn peer_table_insert(m: &mut DashMap<u64, Vec<(u64, Platform, PeerTx)>>, key: u64, peers: Vec<(u64, Platform, PeerTx)>)
    ensures
        peer_table(*final(m)) == peer_table(*old(m)).insert(key, peers@),
        peer_table(*final(m)).dom().finite(),
{
    m.insert(key, peers);
}

/// `DashMap::len` on the map of sessions.
#[verifier::external_body]
pub(crate) fn peer_table_len(m: &DashMap<u64, Vec<(u64, Platform, PeerTx)>>) -> (r: usize)
    ensures
        r == peer_table(*m).len(),
{
    m.len()
}

/// The keys of the map of sessions, in the map's iteration order (which
/// depends on hashing): each session id once.
#[verifier::external_body]
pub(crate) fn peer_table_keys(m: &DashMap<u64, Vec<(u64, Platform, PeerTx)>>) -> (r: Vec<u64>)
    ensures
        r@.to_set() == peer_table(*m).dom(),
        r@.no_duplicates(),
{
    m.iter().map(|e| *e.key()).collect()
}

/// The sessions that still have peers.
pub open spec fn nonempty_sessions(t: Map<u64, Seq<(u64, Platform, PeerTx)>>) -> Map<u64, Seq<(u64, Platform, PeerTx)>> {
    Map::new(|k: u64| t.dom().contains(k) && t[k].len() > 0, |k: u64| t[k])
}

/// Whether a session still has peers; what `retain` keeps.
pub fn has_peers(peers: &Vec<(u64, Platform, PeerTx)>) -> (r: bool)
    ensures
        r == (peers@.len() > 0),
{
    peers.len() > 0
}

/// `DashMap::retain` on the map of sessions, keeping the sessions that
/// have peers.
#[verifier::external_body]
pub(crate) fn peer_table_retain_nonempty(m: &mut DashMap<u64, Vec<(u64, Platform, PeerTx)>>)
    ensures
        peer_table(*final(m)) == nonempty_sessions(peer_table(*old(m))),
{
    m.retain(|_, peers| has_peers(peers));
}

/// What a map from player ids to connection senders holds: each player's
/// registered sender.
pub uninterp spec fn conn_table(m: DashMap<String, PeerTx>) -> Map<Seq<char>, PeerTx>;

/// `DashMap::new`: an empty map of connections.
#[verifier::external_body]
pub(crate) fn conn_table_new() -> (r: DashMap<String, PeerTx>)
    ensures
        conn_table(r).dom() == Set::<Seq<char>>::empty(),
{
    DashMap::new()
}

/// `DashMap::insert` on the map of connections.
#[verifier::external_body]
pub(crate) fn conn_table_insert(m: &mut DashMap<String, PeerTx>, key: String, tx: PeerTx)
    ensures
        conn_table(*final(m)) == conn_table(*old(m)).insert(key@, tx),
{
    m.insert(key, tx);
}

/// `DashMap::remove` on the map of connections.
#[verifier::external_body]
pub(crate) fn conn_table_remove(m: &mut DashMap<String, PeerTx>, key: &str)
    ensures
        conn_table(*final(m)) == conn_table(*old(m)).remove(key@),
{
    m.remove(key);
}

/// `DashMap::get` on the map of connections, cloning the sender: a clone
/// of an `UnboundedSender` holds the same channel handle, so it is the
/// same sender.
#[verifier::external_body]
pub(crate) fn conn_table_get(m: &DashMap<String, PeerTx>, key: &str) -> (r: Option<PeerTx>)
    ensures
        r == conn_table(*m).get(key@),
{
    m.get(key).map(|tx| tx.clone())
}

/// The keys of the map of connections, in the map's iteration order (which
/// depends on hashing): each player once.
#[verifier::external_body]
pub(crate) fn conn_table_keys(m: &DashMap<String, PeerTx>) -> (r: Vec<String>)
    ensures
        r@.map_values(|k: String| k@).to_set() == conn_table(*m).dom(),
        r@.map_values(|k: String| k@).no_duplicates(),
{
    m.iter().map(|e| e.key().clone()).collect()
}

} // verus!
