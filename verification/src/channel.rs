//! The byte buffers and channels that carry packets from the router to each
//! player's connection.

use vstd::prelude::*;
use bytes::Bytes;
use tokio::sync::mpsc::{UnboundedReceiver, UnboundedSender};

verus! {

#[verifier::external_type_specification]
#[verifier::external_body]
pub struct ExBytes(Bytes);

#[verifier::external_type_specification]
#[verifier::external_body]
#[verifier::reject_recursive_types(T)]
pub struct ExUnboundedSender<T>(UnboundedSender<T>);

#[verifier::external_type_specification]
#[verifier::external_body]
#[verifier::reject_recursive_types(T)]
pub struct ExUnboundedReceiver<T>(UnboundedReceiver<T>);

/// The sending side of a peer's outbound channel.
pub type PeerTx = UnboundedSender<Bytes>;

/// What a byte buffer holds.
pub uninterp spec fn bytes_content(b: Bytes) -> Seq<u8>;

/// `Bytes::from(Vec<u8>)`: a buffer holding the vector's bytes.
#[verifier::external_body]
pub fn bytes_from_vec(v: Vec<u8>) -> (r: Bytes)
    ensures
        bytes_content(r) == v@,
{
    Bytes::from(v)
}

/// `Bytes::clone`: another handle on the same bytes.
#[verifier::external_body]
pub fn bytes_clone(b: &Bytes) -> (r: Bytes)
    ensures
        bytes_content(r) == bytes_content(*b),
{
    b.clone()
}

/// The two ends of one channel that `peer_channel` made. Only
/// `peer_channel` makes one.
pub struct ChannelEnds {
    sender: PeerTx,
    receiver: UnboundedReceiver<Bytes>,
}

impl ChannelEnds {
    /// The channel's sending end.
    pub closed spec fn sender(&self) -> PeerTx {
        self.sender
    }

    /// The channel's receiving end.
    pub closed spec fn receiver(&self) -> UnboundedReceiver<Bytes> {
        self.receiver
    }
}

/// `tx` and `rx` are the two ends of one channel: what is handed to `tx`
/// and taken by the channel is what `rx` receives.
pub open spec fn channel_pair(tx: PeerTx, rx: UnboundedReceiver<Bytes>) -> bool {
    exists|e: ChannelEnds| #[trigger] e.sender() == tx && e.receiver() == rx
}

/// `tokio::sync::mpsc::unbounded_channel`: the sending and the receiving
/// half of one new channel, with the record that they belong together.
#[verifier::external_body]
pub fn peer_channel() -> (r: (PeerTx, UnboundedReceiver<Bytes>, Ghost<ChannelEnds>))
    ensures
        r.2@.sender() == r.0,
        r.2@.receiver() == r.1,
{
    let (tx, rx) = tokio::sync::mpsc::unbounded_channel();
    let ends = Ghost(ChannelEnds { sender: tx, receiver: rx });
    (tx, rx, ends)
}

/// What one call of `peer_send` did: the sender it used, the bytes it
/// handed to that sender's channel, and whether the channel took them.
/// Only `peer_send` makes one.
pub struct SendReceipt {
    sender: PeerTx,
    bytes: Seq<u8>,
    taken: bool,
}

impl SendReceipt {
    /// The sender the bytes were handed to.
    pub closed spec fn sender(&self) -> PeerTx {
        self.sender
    }

    /// The bytes handed over.
    pub closed spec fn bytes(&self) -> Seq<u8> {
        self.bytes
    }

    /// Whether the channel took them.
    pub closed spec fn taken(&self) -> bool {
        self.taken
    }
}

/// `UnboundedSender::send`: hands `data` to the channel of `tx`; the flag
/// is true when the channel queued it, false when its receiving end is
/// gone. Which one happens depends on the other end, so nothing is stated
/// of the flag. The receipt records the sender, the bytes and the flag.
/// (tokio aborts the process if the count of senders and queued messages
/// overflows.)
#[verifier::external_body]
pub fn peer_send(tx: &PeerTx, data: Bytes) -> (r: (bool, Ghost<SendReceipt>))
    ensures
        r.1@.sender() == *tx,
        r.1@.bytes() == bytes_content(data),
        r.1@.taken() == r.0,
{
    let handed = Ghost((*tx, bytes_content(data)));
    let ok = tx.send(data).is_ok();
    (ok, Ghost(SendReceipt { sender: handed@.0, bytes: handed@.1, taken: ok }))
}

/// The receipts `rs` are, one for one and in order, sends of the listed
/// bytes to the listed senders with the listed outcomes.
pub open spec fn receipts_are(rs: Seq<SendReceipt>, sends: Seq<(PeerTx, Seq<u8>, bool)>) -> bool {
    &&& rs.len() == sends.len()
    &&& forall|i: int| 0 <= i < rs.len() ==> {
        &&& (#[trigger] rs[i]).sender() == sends[i].0
        &&& rs[i].bytes() == sends[i].1
        &&& rs[i].taken() == sends[i].2
    }
}

/// The receipts after are those before followed by receipts of exactly the
/// listed sends.
pub open spec fn sends_added(before: Seq<SendReceipt>, after: Seq<SendReceipt>, sends: Seq<(PeerTx, Seq<u8>, bool)>) -> bool {
    &&& before.len() <= after.len()
    &&& after.take(before.len() as int) == before
    &&& receipts_are(after.skip(before.len() as int), sends)
}

/// No send is added: the receipts are as before.
pub proof fn lemma_sends_added_none(before: Seq<SendReceipt>)
    ensures
        sends_added(before, before, Seq::empty()),
{
    assert(before.take(before.len() as int) =~= before);
}

/// One more receipt of the next listed send extends the sends added.
pub proof fn lemma_sends_added_push(
    before: Seq<SendReceipt>,
    after: Seq<SendReceipt>,
    sends: Seq<(PeerTx, Seq<u8>, bool)>,
    r: SendReceipt,
    send: (PeerTx, Seq<u8>, bool),
)
    requires
        sends_added(before, after, sends),
        r.sender() == send.0,
        r.bytes() == send.1,
        r.taken() == send.2,
    ensures
        sends_added(before, after.push(r), sends.push(send)),
{
    let n = before.len() as int;
    assert(after.push(r).take(n) =~= after.take(n));
    let new_part = after.push(r).skip(n);
    assert(new_part =~= after.skip(n).push(r));
    assert forall|i: int| 0 <= i < new_part.len() implies {
        &&& (#[trigger] new_part[i]).sender() == sends.push(send)[i].0
        &&& new_part[i].bytes() == sends.push(send)[i].1
        &&& new_part[i].taken() == sends.push(send)[i].2
    } by {
        if i < new_part.len() - 1 {
            assert(new_part[i] == after.skip(n)[i]);
        }
    }
}

/// Receipts that follow receipts of the first listed sends with receipts
/// of the next ones record all of them.
pub proof fn lemma_sends_added_then(
    a: Seq<SendReceipt>,
    b: Seq<SendReceipt>,
    c: Seq<SendReceipt>,
    x: Seq<(PeerTx, Seq<u8>, bool)>,
    y: Seq<(PeerTx, Seq<u8>, bool)>,
)
    requires
        sends_added(a, b, x),
        sends_added(b, c, y),
    ensures
        sends_added(a, c, x + y),
{
    let n = a.len() as int;
    let m = b.len() as int;
    assert(c.take(n) =~= c.take(m).take(n));
    let part = c.skip(n);
    assert(part =~= b.skip(n) + c.skip(m));
    assert forall|i: int| 0 <= i < part.len() implies {
        &&& (#[trigger] part[i]).sender() == (x + y)[i].0
        &&& part[i].bytes() == (x + y)[i].1
        &&& part[i].taken() == (x + y)[i].2
    } by {
        if i < m - n {
            assert(part[i] == b.skip(n)[i]);
        } else {
            assert(part[i] == c.skip(m)[i - (m - n)]);
        }
    }
}

} // verus!
