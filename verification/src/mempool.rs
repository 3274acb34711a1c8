//! The mempool of one authority: its settings, the parts it is made of, and
//! what it does with what the network delivers.

use crate::batch_maker::BatchMaker;
use crate::config::{find_authority, others, stake_of, Address, Authority, Committee, Parameters};
use crate::crypto::{digest_bytes, lemma_digest_by_bytes, Digest, PublicKey};
use crate::helper::Helper;
use crate::messages::{
    decode_message, digests_view, encode_message, lemma_decode_encoded, DecodeError,
    MempoolMessage, MessageView, SerializedBatchMessage, Transaction,
};
use crate::quorum_waiter::QuorumWaiter;
use crate::synchronizer::{PendingView, Synchronizer};
use vstd::prelude::*;

verus! {

/// The default capacity of each queue between two parts of the mempool.
pub const CHANNEL_CAPACITY: usize = 1_000;

/// The acknowledgement that answers every well-formed mempool message.
pub open spec fn ack_bytes() -> Seq<u8> {
    seq![0x41u8, 0x63u8, 0x6bu8]
}

/// The acknowledgement that answers every well-formed mempool message: the
/// three letters of `Ack`.
pub fn ack() -> (bytes: Vec<u8>)
    ensures
        bytes@ == ack_bytes(),
{
    let mut bytes: Vec<u8> = Vec::new();
    bytes.push(0x41u8);
    bytes.push(0x63u8);
    bytes.push(0x6bu8);
    assert(bytes@ =~= ack_bytes());
    bytes
}

/// What becomes of a frame that a peer sent.
#[derive(Debug)]
pub enum Dispatched {
    /// A batch: it is acknowledged, and the frame goes to the processor as it came.
    Batch { ack: Vec<u8>, batch: SerializedBatchMessage },
    /// A batch request: it is acknowledged, and goes to the helper.
    BatchRequest { ack: Vec<u8>, missing: Vec<Digest>, requestor: PublicKey },
    /// No message: the frame is dropped and not acknowledged.
    Malformed(DecodeError),
}

/// The bytes that go to the processor for a frame: the frame itself, if it
/// holds a batch, and nothing otherwise.
pub open spec fn forwarded(frame: Seq<u8>) -> Option<Seq<u8>> {
    match decode_message(frame) {
        Ok(MessageView::Batch(_)) => Some(frame),
        _ => None,
    }
}

/// A batch keeps its digest on its way to a peer: the producer hashes the
/// bytes it serialized, the peer hashes the bytes that its handler forwards
/// for the frame it received, and for a frame that holds the bytes sent the
/// two digests are the same.
pub proof fn lemma_loopback_digest(transactions: Seq<Seq<u8>>, local: Digest, remote: Digest)
    requires
        MessageView::Batch(transactions).wf(),
        local@ == digest_bytes(encode_message(MessageView::Batch(transactions))),
        forwarded(encode_message(MessageView::Batch(transactions))) matches Some(frame)
            ==> remote@ == digest_bytes(frame),
    ensures
        forwarded(encode_message(MessageView::Batch(transactions))) == Some(
            encode_message(MessageView::Batch(transactions)),
        ),
        local == remote,
{
    let message = MessageView::Batch(transactions);
    lemma_decode_encoded(message, Seq::empty());
    assert(encode_message(message) + Seq::<u8>::empty() =~= encode_message(message));
    lemma_digest_by_bytes(local, remote);
}

/// Takes in what clients send.
#[derive(Clone, Copy, Debug)]
pub struct TxReceiverHandler;

impl TxReceiverHandler {
    /// The transaction that a client message is: all of its bytes, unread.
    pub fn dispatch(message: &[u8]) -> (transaction: Transaction)
        ensures
            transaction@ == message@,
    {
        let n = message.len();
        let mut transaction: Vec<u8> = Vec::new();
        let mut i: usize = 0;
        while i < n
            invariant
                i <= n == message@.len(),
                transaction@ == message@.take(i as int),
            decreases n - i,
        {
            transaction.push(message[i]);
            assert(message@.take(i + 1) =~= message@.take(i as int).push(message@[i as int]));
            i += 1;
        }
        assert(message@.take(n as int) =~= message@);
        transaction
    }
}

/// Takes in what other mempools send.
#[derive(Clone, Copy, Debug)]
pub struct MempoolReceiverHandler;

impl MempoolReceiverHandler {
    /// What to do with a frame that a peer sent.
    pub fn dispatch(serialized: &[u8]) -> (outcome: Dispatched)
        ensures
            match decode_message(serialized@) {
                Ok(MessageView::Batch(_)) => {
                    &&& outcome matches Dispatched::Batch { ack, batch }
                    &&& ack@ == ack_bytes()
                    &&& batch@ == serialized@
                },
                Ok(MessageView::BatchRequest(digests, origin)) => {
                    &&& outcome matches Dispatched::BatchRequest { ack, missing, requestor }
                    &&& ack@ == ack_bytes()
                    &&& digests_view(missing@) == digests
                    &&& requestor@ == origin
                },
                Err(error) => outcome == Dispatched::Malformed(error),
            },
    {
        match MempoolMessage::deserialize(serialized) {
            Ok(MempoolMessage::Batch(_)) => Dispatched::Batch {
                ack: ack(),
                batch: TxReceiverHandler::dispatch(serialized),
            },
            Ok(MempoolMessage::BatchRequest(missing, requestor)) => Dispatched::BatchRequest {
                ack: ack(),
                missing,
                requestor,
            },
            Err(error) => Dispatched::Malformed(error),
        }
    }
}

/// The mempool of one authority.
#[derive(Debug)]
pub struct Mempool {
    name: PublicKey,
    committee: Committee,
    parameters: Parameters,
    validator_id: u64,
}

impl Mempool {
    /// The name of this authority.
    pub closed spec fn name(&self) -> PublicKey {
        self.name
    }

    /// The authorities of the committee.
    pub closed spec fn authorities(&self) -> Seq<Authority> {
        self.committee@
    }

    /// The settings.
    pub closed spec fn parameters(&self) -> Parameters {
        self.parameters
    }

    /// The number under which this validator is known to the network layer.
    pub closed spec fn id(&self) -> u64 {
        self.validator_id
    }

    /// This authority is a member of its committee.
    #[verifier::type_invariant]
    closed spec fn inv(&self) -> bool {
        find_authority(self.committee@, self.name) is Some
    }

    /// The mempool of `name`, which must be an authority of `committee`:
    /// there is none for a stranger.
    pub fn new(name: PublicKey, committee: Committee, parameters: Parameters, validator_id: u64) -> (made:
        Option<Mempool>)
        ensures
            made is Some <==> find_authority(committee@, name) is Some,
            made matches Some(mempool) ==> {
                &&& mempool.name() == name
                &&& mempool.authorities() == committee@
                &&& mempool.parameters() == parameters
                &&& mempool.id() == validator_id
            },
    {
        match committee.authority(&name) {
            Some(_) => Some(Mempool { name, committee, parameters, validator_id }),
            None => None,
        }
    }

    /// The number under which this validator is known to the network layer.
    pub fn validator_id(&self) -> (id: u64)
        ensures
            id == self.id(),
    {
        self.validator_id
    }

    /// Where this mempool listens.
    pub fn address(&self) -> (address: Address)
        ensures
            find_authority(self.authorities(), self.name()) matches Some(authority)
                && authority.address == address,
    {
        proof {
            use_type_invariant(self);
        }
        match self.committee.mempool_address(&self.name) {
            Some(address) => address,
            None => vstd::pervasive::unreached(),
        }
    }

    /// The part that gathers the transactions of clients into batches: it
    /// seals by the size and the delay of the settings, and broadcasts to
    /// every other authority.
    pub fn batch_maker(&self) -> (maker: BatchMaker)
        ensures
            maker.wf(),
            maker.batch_size() == self.parameters().batch_size,
            maker.max_batch_delay() == self.parameters().max_batch_delay,
            maker.peers() == others(self.authorities(), self.name()),
            maker.gathered() == Seq::<Seq<u8>>::empty(),
            maker.armed_at() is None,
    {
        BatchMaker::new(
            self.parameters.batch_size,
            self.parameters.max_batch_delay,
            self.committee.broadcast_addresses(&self.name),
        )
    }

    /// The part that waits for a quorum of acknowledgements: it counts the
    /// stake of this authority as given.
    pub fn quorum_waiter(&self) -> (waiter: QuorumWaiter)
        ensures
            waiter.authorities() == self.authorities(),
            waiter.own_stake() as nat == stake_of(self.authorities(), self.name()),
    {
        QuorumWaiter::new(self.committee.clone(), self.committee.stake(&self.name))
    }

    /// The part that answers the batch requests of the other authorities.
    pub fn helper(&self) -> (helper: Helper)
        ensures
            helper.authorities() == self.authorities(),
    {
        Helper::new(self.committee.clone())
    }

    /// The part that chases the batches that consensus misses: it starts at
    /// round 0, chases nothing, and retries and gives up by the settings.
    pub fn synchronizer(&self) -> (synchronizer: Synchronizer)
        ensures
            synchronizer.wf(),
            synchronizer.name() == self.name(),
            synchronizer.authorities() == self.authorities(),
            synchronizer.gc_depth() == self.parameters().gc_depth,
            synchronizer.retry_delay() == self.parameters().sync_retry_delay,
            synchronizer.retry_nodes() == self.parameters().sync_retry_nodes,
            synchronizer.round() == 0,
            synchronizer.pending() == Seq::<PendingView>::empty(),
    {
        Synchronizer::new(
            self.name,
            self.committee.clone(),
            self.parameters.gc_depth,
            self.parameters.sync_retry_delay,
            self.parameters.sync_retry_nodes,
        )
    }
}

} // verus!
