//! The connections of one adapter: each registered player's outbound
//! sender, and, as ghost state, the receipts of the calls made on them.

use vstd::prelude::*;
use bytes::Bytes;
use dashmap::DashMap;
use crate::channel::{
    PeerTx, SendReceipt, sends_added, lemma_sends_added_none, lemma_sends_added_push, lemma_sends_added_then,
    bytes_content, bytes_clone, peer_send,
};
use crate::tables::{conn_table, conn_table_new, conn_table_insert, conn_table_remove, conn_table_get, conn_table_keys};

verus! {

/// The sending side of a connection's outbound channel.
pub type ConnTx = PeerTx;

pub struct ConnectionRegistry {
    inner: DashMap<String, ConnTx>,
    /// The receipt of every call to a connection's channel so far.
    sent: Ghost<Seq<SendReceipt>>,
}

impl View for ConnectionRegistry {
    type V = Map<Seq<char>, ConnTx>;

    /// Each registered player's sender.
    closed spec fn view(&self) -> Map<Seq<char>, ConnTx> {
        conn_table(self.inner)
    }
}

/// The sends of a broadcast: for each player, in order, the player's
/// sender in `conns`, the bytes, and whether its connection took them.
pub open spec fn conn_log(
    conns: Map<Seq<char>, ConnTx>,
    players: Seq<Seq<char>>,
    bytes: Seq<u8>,
    oks: Seq<bool>,
) -> Seq<(PeerTx, Seq<u8>, bool)> {
    Seq::new(players.len(), |i: int| (conns[players[i]], bytes, oks[i]))
}

/// The players whose connection did not take a broadcast's bytes.
pub open spec fn failed_sends(players: Seq<Seq<char>>, oks: Seq<bool>) -> Set<Seq<char>> {
    Set::new(|p: Seq<char>| exists|i: int| 0 <= i < players.len() && players[i] == p && !oks[i])
}

/// One more send adds its player to the failed ones when it failed.
proof fn lemma_failed_sends_push(players: Seq<Seq<char>>, oks: Seq<bool>, i: int, ok: bool)
    requires
        0 <= i < players.len(),
        oks.len() == i,
    ensures
        failed_sends(players.take(i + 1), oks.push(ok)) == if ok {
            failed_sends(players.take(i), oks)
        } else {
            failed_sends(players.take(i), oks).insert(players[i])
        },
{
    let a = failed_sends(players.take(i + 1), oks.push(ok));
    let b = failed_sends(players.take(i), oks);
    assert forall|p: Seq<char>| a.contains(p) == (if ok { b } else { b.insert(players[i]) }).contains(p) by {
        if a.contains(p) {
            let j = choose|j: int| 0 <= j < i + 1 && players.take(i + 1)[j] == p && !oks.push(ok)[j];
            if j < i {
                assert(players.take(i)[j] == p && !oks[j]);
            }
        }
        if b.contains(p) {
            let j = choose|j: int| 0 <= j < i && players.take(i)[j] == p && !oks[j];
            assert(players.take(i + 1)[j] == p && !oks.push(ok)[j]);
        }
        if !ok && p == players[i] {
            assert(players.take(i + 1)[i] == p && !oks.push(ok)[i]);
        }
    }
    if ok {
        assert(a =~= b);
    } else {
        assert(a =~= b.insert(players[i]));
    }
}

impl ConnectionRegistry {
    /// The receipts of the calls made on the connections' channels, in
    /// order: each names the sender, the bytes handed over and whether the
    /// channel took them.
    pub closed spec fn sent(&self) -> Seq<SendReceipt> {
        self.sent@
    }

    pub fn new() -> (r: Self)
        ensures
            r@ == Map::<Seq<char>, ConnTx>::empty(),
            r.sent() == Seq::<SendReceipt>::empty(),
    {
        let r = ConnectionRegistry { inner: conn_table_new(), sent: Ghost(Seq::empty()) };
        proof {
            assert(r@ =~= Map::<Seq<char>, ConnTx>::empty());
        }
        r
    }

    /// Registers a player's connection sender, replacing any earlier one.
    pub fn register(&mut self, player_id: String, tx: ConnTx)
        ensures
            final(self)@ == old(self)@.insert(player_id@, tx),
            final(self).sent() == old(self).sent(),
    {
        conn_table_insert(&mut self.inner, player_id, tx);
    }

    /// Forgets a player's connection.
    pub fn deregister(&mut self, player_id: &str)
        ensures
            final(self)@ == old(self)@.remove(player_id@),
            final(self).sent() == old(self).sent(),
    {
        conn_table_remove(&mut self.inner, player_id);
    }

    /// Sends bytes to a player's connection. When the player has one, the
    /// bytes are handed to the sender it registered, once, and the result
    /// is whether its channel took them; otherwise nothing is sent and the
    /// result is false.
    pub fn send_to(&mut self, player_id: &str, data: Bytes) -> (r: bool)
        ensures
            final(self)@ == old(self)@,
            old(self)@.contains_key(player_id@) ==> sends_added(
                old(self).sent(),
                final(self).sent(),
                seq![(old(self)@[player_id@], bytes_content(data), r)],
            ),
            !old(self)@.contains_key(player_id@) ==> !r && final(self).sent() == old(self).sent(),
    {
        match conn_table_get(&self.inner, player_id) {
            Some(tx) => {
                let ghost b = bytes_content(data);
                let (ok, receipt) = peer_send(&tx, data);
                let ghost before = self.sent@;
                self.sent = Ghost(self.sent@.push(receipt@));
                proof {
                    lemma_sends_added_none(before);
                    lemma_sends_added_push(before, before, Seq::empty(), receipt@, (tx, b, ok));
                    assert(Seq::<(PeerTx, Seq<u8>, bool)>::empty().push((tx, b, ok)) =~= seq![(tx, b, ok)]);
                }
                ok
            },
            None => false,
        }
    }

    /// Sends bytes to every registered connection, once each, and
    /// deregisters exactly the connections that did not take them.
    pub fn broadcast(&mut self, data: Bytes)
        ensures
            exists|players: Seq<Seq<char>>, oks: Seq<bool>| {
                &&& players.no_duplicates()
                &&& players.to_set() == old(self)@.dom()
                &&& oks.len() == players.len()
                &&& sends_added(
                    old(self).sent(),
                    final(self).sent(),
                    conn_log(old(self)@, players, bytes_content(data), oks),
                )
                &&& final(self)@ == old(self)@.remove_keys(failed_sends(players, oks))
            },
    {
        let keys = conn_table_keys(&self.inner);
        let ghost players = keys@.map_values(|k: String| k@);
        let ghost b = bytes_content(data);
        let ghost mut oks: Seq<bool> = Seq::empty();
        let n = keys.len();
        let mut i: usize = 0;
        proof {
            lemma_sends_added_none(self.sent@);
            assert(conn_log(old(self)@, players.take(0), b, oks) =~= Seq::<(PeerTx, Seq<u8>, bool)>::empty());
            assert(self@ =~= old(self)@.remove_keys(failed_sends(players.take(0), oks)));
        }
        while i < n
            invariant
                n == keys@.len(),
                players == keys@.map_values(|k: String| k@),
                players.no_duplicates(),
                players.to_set() == old(self)@.dom(),
                b == bytes_content(data),
                0 <= i <= n,
                oks.len() == i,
                sends_added(old(self).sent(), self.sent(), conn_log(old(self)@, players.take(i as int), b, oks)),
                self@ == old(self)@.remove_keys(failed_sends(players.take(i as int), oks)),
            decreases n - i,
        {
            let ghost p = players[i as int];
            proof {
                assert(players.to_set().contains(p));
                assert(!failed_sends(players.take(i as int), oks).contains(p)) by {
                    if failed_sends(players.take(i as int), oks).contains(p) {
                        let j = choose|j: int| 0 <= j < i && players.take(i as int)[j] == p && !oks[j];
                        assert(players[j] == players[i as int]);
                    }
                }
                assert(self@.contains_key(p) && self@[p] == old(self)@[p]);
            }
            let ghost sent_before = self.sent();
            let ok = self.send_to(keys[i].as_str(), bytes_clone(&data));
            if !ok {
                self.deregister(keys[i].as_str());
            }
            proof {
                let prev = conn_log(old(self)@, players.take(i as int), b, oks);
                lemma_sends_added_then(old(self).sent(), sent_before, self.sent(), prev, seq![(old(self)@[p], b, ok)]);
                lemma_failed_sends_push(players, oks, i as int, ok);
                oks = oks.push(ok);
                assert(prev + seq![(old(self)@[p], b, ok)] =~= conn_log(old(self)@, players.take(i + 1), b, oks));
                assert(self@ =~= old(self)@.remove_keys(failed_sends(players.take(i + 1), oks)));
            }
            i = i + 1;
        }
        proof {
            assert(players.take(n as int) =~= players);
        }
    }
}

/// Deregistering a player undoes registering a player who had no
/// connection.
pub proof fn lemma_deregister_undoes_register(conns: Map<Seq<char>, ConnTx>, player: Seq<char>, tx: ConnTx)
    requires
        !conns.contains_key(player),
    ensures
        conns.insert(player, tx).remove(player) == conns,
{
    assert(conns.insert(player, tx).remove(player) =~= conns);
}

impl Default for ConnectionRegistry {
    fn default() -> (r: Self)
        ensures
            r@ == Map::<Seq<char>, ConnTx>::empty(),
            r.sent() == Seq::<SendReceipt>::empty(),
    {
        Self::new()
    }
}

} // verus!
