//! Answers the batch requests of other mempools.
//!
//! A peer that misses batches asks for them by digest. Each digest is looked
//! up in the store; what is found is sent back to the peer, in the order in
//! which it was asked for, and what is not found is passed over in silence.

use crate::config::{find_authority, Address, Authority, Committee};
use crate::crypto::PublicKey;
use crate::messages::SerializedBatchMessage;
use vstd::prelude::*;

verus! {

/// A stored batch on its way to the peer that asked for it.
#[derive(Debug)]
pub struct Reply {
    pub address: Address,
    pub batch: SerializedBatchMessage,
}

/// What the store answered for each digest asked for, as plain values.
pub open spec fn lookups_view(found: Seq<Option<Vec<u8>>>) -> Seq<Option<Seq<u8>>> {
    Seq::new(
        found.len(),
        |i: int|
            match found[i] {
                Some(batch) => Some(batch@),
                None => None,
            },
    )
}

/// Replies as plain values.
pub open spec fn replies_view(replies: Seq<Reply>) -> Seq<(Address, Seq<u8>)> {
    Seq::new(replies.len(), |i: int| (replies[i].address, replies[i].batch@))
}

/// One reply to `address` for each batch that was found, in the order of the
/// request.
pub open spec fn replies_to(address: Address, found: Seq<Option<Seq<u8>>>) -> Seq<
    (Address, Seq<u8>),
>
    decreases found.len(),
{
    if found.len() == 0 {
        Seq::empty()
    } else {
        let before = replies_to(address, found.drop_last());
        match found.last() {
            Some(batch) => before.push((address, batch)),
            None => before,
        }
    }
}

/// The replies to a request of `requestor`: none at all for a stranger.
pub open spec fn serve_spec(
    authorities: Seq<Authority>,
    requestor: PublicKey,
    found: Seq<Option<Seq<u8>>>,
) -> Seq<(Address, Seq<u8>)> {
    match find_authority(authorities, requestor) {
        Some(authority) => replies_to(authority.address, found),
        None => Seq::empty(),
    }
}

/// There are never more replies than digests asked for, every reply goes to
/// the address given, and where nothing was found nothing is sent.
pub proof fn lemma_replies_to(address: Address, found: Seq<Option<Seq<u8>>>)
    ensures
        replies_to(address, found).len() <= found.len(),
        forall|i: int|
            0 <= i < replies_to(address, found).len() ==> (#[trigger] replies_to(
                address,
                found,
            )[i]).0 == address,
        (forall|i: int| 0 <= i < found.len() ==> found[i] is None) ==> replies_to(address, found).len()
            == 0,
    decreases found.len(),
{
    if found.len() > 0 {
        lemma_replies_to(address, found.drop_last());
        if forall|i: int| 0 <= i < found.len() ==> found[i] is None {
            assert(found.last() is None);
            assert forall|i: int| 0 <= i < found.drop_last().len() implies found.drop_last()[i] is None by {
                assert(found.drop_last()[i] == found[i]);
            }
        }
    }
}

/// Replies to batch requests on behalf of one authority.
#[derive(Debug)]
pub struct Helper {
    committee: Committee,
}

impl Helper {
    /// The authorities whose requests are answered.
    pub closed spec fn authorities(&self) -> Seq<Authority> {
        self.committee@
    }

    /// A helper that answers the authorities of `committee`.
    pub fn new(committee: Committee) -> (helper: Helper)
        ensures
            helper.authorities() == committee@,
    {
        Helper { committee }
    }

    /// Where the replies to a request of `requestor` go: nowhere if it is no
    /// authority, and then the store need not be read.
    pub fn resolve(&self, requestor: &PublicKey) -> (address: Option<Address>)
        ensures
            address == match find_authority(self.authorities(), *requestor) {
                Some(authority) => Some(authority.address),
                None => None,
            },
    {
        self.committee.mempool_address(requestor)
    }

    /// The replies to send to `address`, given what the store answered for
    /// each digest of the request, in the order of the request.
    pub fn replies(address: Address, found: Vec<Option<SerializedBatchMessage>>) -> (replies: Vec<
        Reply,
    >)
        ensures
            replies_view(replies@) == replies_to(address, lookups_view(found@)),
    {
        let ghost asked = lookups_view(found@);
        let mut found = found;
        let n = found.len();
        let mut replies: Vec<Reply> = Vec::new();
        let mut i: usize = 0;
        assert(asked.take(0) =~= Seq::<Option<Seq<u8>>>::empty());
        assert(replies_view(replies@) =~= Seq::<(Address, Seq<u8>)>::empty());
        while i < n
            invariant
                i <= n == found@.len(),
                asked.len() == n,
                forall|j: int| i <= j < n ==> asked[j] == lookups_view(found@)[j],
                replies_view(replies@) == replies_to(address, asked.take(i as int)),
            decreases n - i,
        {
            let ghost sent = replies_view(replies@);
            assert(asked.take(i + 1).drop_last() =~= asked.take(i as int));
            assert(asked[i as int] == lookups_view(found@)[i as int]);
            match found[i].take() {
                Some(batch) => {
                    replies.push(Reply { address, batch });
                    assert(replies_view(replies@) =~= sent.push((address, batch@)));
                },
                None => {},
            }
            assert forall|j: int| i + 1 <= j < n implies asked[j] == lookups_view(found@)[j] by {}
            i += 1;
        }
        assert(asked.take(n as int) =~= asked);
        replies
    }

    /// The replies to a request of `requestor`, given what the store answered
    /// for each digest of the request, in the order of the request.
    pub fn serve(&self, requestor: &PublicKey, found: Vec<Option<SerializedBatchMessage>>) -> (replies:
        Vec<Reply>)
        ensures
            replies_view(replies@) == serve_spec(self.authorities(), *requestor, lookups_view(found@)),
    {
        match self.resolve(requestor) {
            Some(address) => Helper::replies(address, found),
            None => {
                let replies: Vec<Reply> = Vec::new();
                assert(replies_view(replies@) =~= Seq::<(Address, Seq<u8>)>::empty());
                replies
            },
        }
    }
}

} // verus!
