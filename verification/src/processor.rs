//! Stores each batch under its digest and announces the digest to consensus.
//!
//! The write comes first: a digest is announced only once the store has
//! taken the bytes, so that whoever hears of a digest can read its batch.

use crate::crypto::{digest_bytes, Digest};
use crate::messages::SerializedBatchMessage;
use vstd::prelude::*;

verus! {

/// A write to the store: a batch under its digest.
#[derive(Debug)]
pub struct StoreWrite {
    pub key: Digest,
    pub value: SerializedBatchMessage,
}

/// The digest that goes to consensus after a write: that of the write, if the
/// store took it, and none if the write failed.
pub open spec fn announced(key: Digest, stored: bool) -> Option<Digest> {
    if stored {
        Some(key)
    } else {
        None
    }
}

/// The store after a write: with the batch under its key if the store took
/// the write, unchanged if it failed.
pub open spec fn store_after(
    store: Map<Digest, Seq<u8>>,
    key: Digest,
    value: Seq<u8>,
    stored: bool,
) -> Map<Digest, Seq<u8>> {
    if stored {
        store.insert(key, value)
    } else {
        store
    }
}

/// Every digest that is announced can be read back: after the write that
/// precedes the announcement the store holds, under that digest, the very
/// bytes that were written, and the digest is their hash. A failed write
/// announces nothing and leaves the store as it was.
pub proof fn lemma_announced_digest_is_readable(
    store: Map<Digest, Seq<u8>>,
    key: Digest,
    batch: Seq<u8>,
    stored: bool,
)
    requires
        key@ == digest_bytes(batch),
    ensures
        match announced(key, stored) {
            Some(digest) => {
                let after = store_after(store, key, batch, stored);
                &&& after.dom().contains(digest)
                &&& after[digest] == batch
                &&& digest@ == digest_bytes(after[digest])
            },
            None => !stored && store_after(store, key, batch, stored) == store,
        },
{
}

/// Hashes, stores and announces batches: those that a quorum acknowledged
/// and those that peers sent alike.
#[derive(Clone, Copy, Debug)]
pub struct Processor;

impl Processor {
    /// The write that stores `batch`: the bytes as they are, under their digest.
    pub fn prepare(batch: SerializedBatchMessage) -> (write: StoreWrite)
        ensures
            write.key@ == digest_bytes(batch@),
            write.value@ == batch@,
    {
        let key = Digest::of(batch.as_slice());
        StoreWrite { key, value: batch }
    }

    /// What to send to consensus once the store has answered the write under
    /// `key`: the digest if the write succeeded, nothing if it failed.
    pub fn complete(key: Digest, stored: bool) -> (digest: Option<Digest>)
        ensures
            digest == announced(key, stored),
    {
        if stored {
            Some(key)
        } else {
            None
        }
    }
}

} // verus!
