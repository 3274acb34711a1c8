//! Chases the batches that consensus needs and that are missing here.
//!
//! Every missing digest is first asked of the peer that consensus names. A
//! digest that stays missing for the retry delay is asked of further peers:
//! each retry takes the next few, in committee order, among those that no
//! retry has asked yet, and once the retries have asked every peer they
//! start over. A digest is given up when consensus has moved
//! more than the garbage-collection depth past the round in which it was
//! found missing. The clock is the caller's: calls are told the present time
//! in milliseconds.

use crate::config::{find_authority, Address, Authority, Committee};
use crate::crypto::{find_key, lemma_position, Digest, PublicKey};
use crate::messages::{
    digests_view, encode_message, serialize_batch_request, MessageView, Round,
};
use vstd::prelude::*;

verus! {

/// What the store answered when asked, without waiting, for a digest.
#[derive(Clone, Copy, Debug, PartialEq, Eq, Structural)]
pub enum StoreLookup {
    /// The batch is stored.
    Present,
    /// The batch is not stored.
    Absent,
    /// The store could not tell; the batch counts as not stored yet.
    Failed,
}

/// A missing batch that is being chased, as plain values.
pub struct PendingView {
    pub digest: Digest,
    /// The round in which the batch was found missing.
    pub since: Round,
    /// The peers asked by the retries of the present round of asking.
    pub tried: Seq<PublicKey>,
    /// When the batch was last asked for.
    pub requested_at: u64,
}

/// A missing batch that is being chased.
#[derive(Debug)]
pub struct PendingSync {
    pub digest: Digest,
    pub since: Round,
    pub tried: Vec<PublicKey>,
    pub requested_at: u64,
}

impl View for PendingSync {
    type V = PendingView;

    open spec fn view(&self) -> PendingView {
        PendingView {
            digest: self.digest,
            since: self.since,
            tried: self.tried@,
            requested_at: self.requested_at,
        }
    }
}

/// A batch request on its way to one peer.
#[derive(Debug)]
pub struct SyncRequest {
    pub address: Address,
    /// The wire form of the request.
    pub message: Vec<u8>,
}

/// What follows from a synchronize command.
#[derive(Debug)]
pub struct Synchronized {
    /// The digests now chased because of this command: the arrival of each
    /// in the store is to be awaited.
    pub wait_for: Vec<Digest>,
    /// The request for those digests, to the peer that consensus named.
    pub request: Option<SyncRequest>,
}

/// One more round of asking for a digest that stayed missing.
#[derive(Debug)]
pub struct Retry {
    pub digest: Digest,
    /// The wire form of the request.
    pub message: Vec<u8>,
    /// The peers asked.
    pub addresses: Vec<Address>,
}

/// A retry as plain values.
pub struct RetryView {
    pub digest: Digest,
    pub message: Seq<u8>,
    pub addresses: Seq<Address>,
}

impl View for Retry {
    type V = RetryView;

    open spec fn view(&self) -> RetryView {
        RetryView { digest: self.digest, message: self.message@, addresses: self.addresses@ }
    }
}

/// The entries of a list as plain values.
pub open spec fn pending_view(entries: Seq<PendingSync>) -> Seq<PendingView> {
    Seq::new(entries.len(), |i: int| entries[i]@)
}

/// The retries of a list as plain values.
pub open spec fn retries_view(retries: Seq<Retry>) -> Seq<RetryView> {
    Seq::new(retries.len(), |i: int| retries[i]@)
}

/// The digests of a list of entries, in order.
pub open spec fn digests_of(entries: Seq<PendingView>) -> Seq<Digest> {
    Seq::new(entries.len(), |i: int| entries[i].digest)
}

/// The names of a list of authorities, in order.
pub open spec fn names_of(authorities: Seq<Authority>) -> Seq<PublicKey> {
    Seq::new(authorities.len(), |i: int| authorities[i].name)
}

/// The addresses of a list of authorities, in order.
pub open spec fn addresses_of(authorities: Seq<Authority>) -> Seq<Address> {
    Seq::new(authorities.len(), |i: int| authorities[i].address)
}

/// Whether `digest` is being chased.
pub open spec fn is_pending(entries: Seq<PendingView>, digest: Digest) -> bool {
    exists|i: int| 0 <= i < entries.len() && (#[trigger] entries[i]).digest == digest
}

/// No digest is chased twice.
pub open spec fn distinct_digests(entries: Seq<PendingView>) -> bool {
    forall|i: int, j: int|
        0 <= i < j < entries.len() ==> (#[trigger] entries[i]).digest != (
        #[trigger] entries[j]).digest
}

/// The wire form of the request that `origin` makes for `digests`.
pub open spec fn request_bytes(digests: Seq<Digest>, origin: PublicKey) -> Seq<u8> {
    encode_message(MessageView::BatchRequest(digests_view(digests), origin@))
}

/// The entries after a synchronize command made in `round` at time `now`.
/// The digests are taken in order; one that the store holds, or that is
/// chased already, changes nothing; any other is chased from this round on,
/// with no peer tried yet.
pub open spec fn admitted(
    entries: Seq<PendingView>,
    checked: Seq<(Digest, StoreLookup)>,
    round: Round,
    now: u64,
) -> Seq<PendingView>
    decreases checked.len(),
{
    if checked.len() == 0 {
        entries
    } else {
        let before = admitted(entries, checked.drop_last(), round, now);
        let (digest, lookup) = checked.last();
        if lookup == StoreLookup::Present || is_pending(before, digest) {
            before
        } else {
            before.push(
                PendingView { digest, since: round, tried: Seq::empty(), requested_at: now },
            )
        }
    }
}

/// Whether an entry is given up at `round`: consensus is more than
/// `gc_depth` rounds past the round in which the batch was found missing.
pub open spec fn expired(entry: PendingView, round: Round, gc_depth: Round) -> bool {
    round - entry.since > gc_depth
}

/// The entries that are still chased at `round`, in order.
pub open spec fn kept(entries: Seq<PendingView>, round: Round, gc_depth: Round) -> Seq<PendingView>
    decreases entries.len(),
{
    if entries.len() == 0 {
        Seq::empty()
    } else {
        let before = kept(entries.drop_last(), round, gc_depth);
        if expired(entries.last(), round, gc_depth) {
            before
        } else {
            before.push(entries.last())
        }
    }
}

/// The digests that are given up at `round`, in order.
pub open spec fn dropped(entries: Seq<PendingView>, round: Round, gc_depth: Round) -> Seq<Digest>
    decreases entries.len(),
{
    if entries.len() == 0 {
        Seq::empty()
    } else {
        let before = dropped(entries.drop_last(), round, gc_depth);
        if expired(entries.last(), round, gc_depth) {
            before.push(entries.last().digest)
        } else {
            before
        }
    }
}

/// The authorities that a retry may ask: all but `myself` and those tried,
/// in committee order.
pub open spec fn untried(
    authorities: Seq<Authority>,
    myself: PublicKey,
    tried: Seq<PublicKey>,
) -> Seq<Authority>
    decreases authorities.len(),
{
    if authorities.len() == 0 {
        Seq::empty()
    } else {
        let before = untried(authorities.drop_last(), myself, tried);
        let last = authorities.last();
        if last.name != myself && !tried.contains(last.name) {
            before.push(last)
        } else {
            before
        }
    }
}

/// Whether every peer has been tried, so that the round of asking starts over.
pub open spec fn exhausted(
    authorities: Seq<Authority>,
    myself: PublicKey,
    tried: Seq<PublicKey>,
) -> bool {
    untried(authorities, myself, tried).len() == 0
}

/// The peers that the next retry asks: the first `limit` of those not tried
/// yet, or of all peers once all have been tried.
pub open spec fn retry_targets(
    authorities: Seq<Authority>,
    myself: PublicKey,
    tried: Seq<PublicKey>,
    limit: usize,
) -> Seq<Authority> {
    let pool = if exhausted(authorities, myself, tried) {
        untried(authorities, myself, Seq::empty())
    } else {
        untried(authorities, myself, tried)
    };
    if pool.len() <= limit {
        pool
    } else {
        pool.take(limit as int)
    }
}

/// Whether an entry is due for a retry at `now`: it was last asked for at
/// least `delay` milliseconds ago.
pub open spec fn retry_due(entry: PendingView, now: u64, delay: u64) -> bool {
    now - entry.requested_at >= delay
}

/// An entry after a retry at `now`: the peers asked are added to those tried.
pub open spec fn retried(
    entry: PendingView,
    authorities: Seq<Authority>,
    myself: PublicKey,
    limit: usize,
    now: u64,
) -> PendingView {
    let base = if exhausted(authorities, myself, entry.tried) {
        Seq::empty()
    } else {
        entry.tried
    };
    PendingView {
        digest: entry.digest,
        since: entry.since,
        tried: base + names_of(retry_targets(authorities, myself, entry.tried, limit)),
        requested_at: now,
    }
}

/// The retry that an entry makes: the same request as at first, to the next peers.
pub open spec fn retry_of(
    entry: PendingView,
    authorities: Seq<Authority>,
    myself: PublicKey,
    limit: usize,
) -> RetryView {
    RetryView {
        digest: entry.digest,
        message: request_bytes(seq![entry.digest], myself),
        addresses: addresses_of(retry_targets(authorities, myself, entry.tried, limit)),
    }
}

/// An entry after a tick at `now`.
pub open spec fn ticked(
    entry: PendingView,
    authorities: Seq<Authority>,
    myself: PublicKey,
    limit: usize,
    now: u64,
    delay: u64,
) -> PendingView {
    if retry_due(entry, now, delay) {
        retried(entry, authorities, myself, limit, now)
    } else {
        entry
    }
}

/// The retries that a tick at `now` makes: one for each entry that is due, in order.
pub open spec fn due_retries(
    entries: Seq<PendingView>,
    authorities: Seq<Authority>,
    myself: PublicKey,
    limit: usize,
    now: u64,
    delay: u64,
) -> Seq<RetryView>
    decreases entries.len(),
{
    if entries.len() == 0 {
        Seq::empty()
    } else {
        let before = due_retries(entries.drop_last(), authorities, myself, limit, now, delay);
        if retry_due(entries.last(), now, delay) {
            before.push(retry_of(entries.last(), authorities, myself, limit))
        } else {
            before
        }
    }
}

/// What is kept was chased before and is not expired, in the same order.
pub proof fn lemma_kept(entries: Seq<PendingView>, round: Round, gc_depth: Round)
    ensures
        kept(entries, round, gc_depth).len() <= entries.len(),
        forall|j: int|
            0 <= j < kept(entries, round, gc_depth).len() ==> {
                let entry = #[trigger] kept(entries, round, gc_depth)[j];
                &&& !expired(entry, round, gc_depth)
                &&& exists|i: int| j <= i < entries.len() && entries[i] == entry
            },
        forall|i: int|
            0 <= i < entries.len() && !expired(#[trigger] entries[i], round, gc_depth) ==> kept(
                entries,
                round,
                gc_depth,
            ).contains(entries[i]),
        distinct_digests(entries) ==> distinct_digests(kept(entries, round, gc_depth)),
    decreases entries.len(),
{
    let result = kept(entries, round, gc_depth);
    if entries.len() > 0 {
        let shorter = entries.drop_last();
        let before = kept(shorter, round, gc_depth);
        lemma_kept(shorter, round, gc_depth);
        assert forall|j: int| 0 <= j < result.len() implies {
            let entry = #[trigger] result[j];
            &&& !expired(entry, round, gc_depth)
            &&& exists|i: int| j <= i < entries.len() && entries[i] == entry
        } by {
            if j < before.len() {
                let entry = before[j];
                let i = choose|i: int| j <= i < shorter.len() && shorter[i] == entry;
                assert(entries[i] == entry);
            } else {
                assert(entries[entries.len() - 1] == result[j]);
            }
        }
        assert forall|i: int|
            0 <= i < entries.len() && !expired(
                #[trigger] entries[i],
                round,
                gc_depth,
            ) implies result.contains(entries[i]) by {
            if i < shorter.len() {
                assert(shorter[i] == entries[i]);
                let j = choose|j: int| 0 <= j < before.len() && before[j] == shorter[i];
                assert(result[j] == entries[i]);
            } else {
                assert(result[result.len() - 1] == entries[i]);
            }
        }
        if distinct_digests(entries) {
            assert(distinct_digests(shorter)) by {
                assert forall|i: int, j: int| 0 <= i < j < shorter.len() implies (
                #[trigger] shorter[i]).digest != (#[trigger] shorter[j]).digest by {
                    assert(shorter[i] == entries[i]);
                    assert(shorter[j] == entries[j]);
                }
            }
            assert forall|a: int, b: int| 0 <= a < b < result.len() implies (
            #[trigger] result[a]).digest != (#[trigger] result[b]).digest by {
                if b == before.len() {
                    let entry = before[a];
                    let i = choose|i: int| a <= i < shorter.len() && shorter[i] == entry;
                    assert(entries[i] == entry);
                    assert(entries[entries.len() - 1] == result[b]);
                }
            }
        }
    }
}

/// Whether `digest` is that of an entry that is given up at `round`.
pub open spec fn gives_up(
    entries: Seq<PendingView>,
    round: Round,
    gc_depth: Round,
    digest: Digest,
) -> bool {
    exists|i: int|
        0 <= i < entries.len() && expired(#[trigger] entries[i], round, gc_depth)
            && entries[i].digest == digest
}

/// What is dropped was chased before and is expired, and all of that is dropped.
pub proof fn lemma_dropped(entries: Seq<PendingView>, round: Round, gc_depth: Round)
    ensures
        forall|i: int|
            0 <= i < entries.len() && expired(#[trigger] entries[i], round, gc_depth) ==> dropped(
                entries,
                round,
                gc_depth,
            ).contains(entries[i].digest),
        forall|j: int|
            0 <= j < dropped(entries, round, gc_depth).len() ==> gives_up(
                entries,
                round,
                gc_depth,
                #[trigger] dropped(entries, round, gc_depth)[j],
            ),
    decreases entries.len(),
{
    let result = dropped(entries, round, gc_depth);
    if entries.len() > 0 {
        let shorter = entries.drop_last();
        let before = dropped(shorter, round, gc_depth);
        lemma_dropped(shorter, round, gc_depth);
        assert forall|i: int|
            0 <= i < entries.len() && expired(
                #[trigger] entries[i],
                round,
                gc_depth,
            ) implies result.contains(entries[i].digest) by {
            if i < shorter.len() {
                assert(shorter[i] == entries[i]);
                let j = choose|j: int| 0 <= j < before.len() && before[j] == shorter[i].digest;
                assert(result[j] == entries[i].digest);
            } else {
                assert(result[result.len() - 1] == entries[i].digest);
            }
        }
        assert forall|j: int| 0 <= j < result.len() implies gives_up(
            entries,
            round,
            gc_depth,
            #[trigger] result[j],
        ) by {
            if j < before.len() {
                assert(gives_up(shorter, round, gc_depth, before[j]));
                let i = choose|i: int|
                    0 <= i < shorter.len() && expired(#[trigger] shorter[i], round, gc_depth)
                        && shorter[i].digest == before[j];
                assert(entries[i] == shorter[i]);
            } else {
                let i = entries.len() - 1;
                assert(expired(entries[i], round, gc_depth) && entries[i].digest == result[j]);
            }
        }
    }
}

/// The round after consensus has told of `told`: rounds never go back.
pub open spec fn round_after(current: Round, told: Round) -> Round {
    if told > current {
        told
    } else {
        current
    }
}

/// A cleanup purges what is too old: every digest that is still chased when
/// consensus tells of a round more than `gc_depth` past the round in which
/// the digest was found missing is among those dropped, whose waits are
/// cancelled, and is chased no longer.
pub proof fn lemma_cleanup_purges_expired(
    entries: Seq<PendingView>,
    current: Round,
    told: Round,
    gc_depth: Round,
    i: int,
)
    requires
        distinct_digests(entries),
        0 <= i < entries.len(),
        told - entries[i].since > gc_depth,
    ensures
        dropped(entries, round_after(current, told), gc_depth).contains(entries[i].digest),
        !is_pending(kept(entries, round_after(current, told), gc_depth), entries[i].digest),
{
    let round = round_after(current, told);
    lemma_dropped(entries, round, gc_depth);
    lemma_kept(entries, round, gc_depth);
    let rest = kept(entries, round, gc_depth);
    assert(expired(entries[i], round, gc_depth));
    if is_pending(rest, entries[i].digest) {
        let j = choose|j: int| 0 <= j < rest.len() && (#[trigger] rest[j]).digest == entries[i].digest;
        let k = choose|k: int| j <= k < entries.len() && entries[k] == rest[j];
        assert(!expired(rest[j], round, gc_depth));
        if k < i {
            assert(entries[k].digest != entries[i].digest);
        } else if i < k {
            assert(entries[i].digest != entries[k].digest);
        }
    }
}

/// Keeps the mempool in step with what consensus needs.
#[derive(Debug)]
pub struct Synchronizer {
    name: PublicKey,
    committee: Committee,
    gc_depth: Round,
    sync_retry_delay: u64,
    sync_retry_nodes: usize,
    round: Round,
    pending: Vec<PendingSync>,
}

impl Synchronizer {
    /// The name of this authority.
    pub closed spec fn name(&self) -> PublicKey {
        self.name
    }

    /// The authorities that can be asked.
    pub closed spec fn authorities(&self) -> Seq<Authority> {
        self.committee@
    }

    /// The number of rounds for which a missing batch is chased.
    pub closed spec fn gc_depth(&self) -> Round {
        self.gc_depth
    }

    /// The milliseconds between two requests for the same batch.
    pub closed spec fn retry_delay(&self) -> u64 {
        self.sync_retry_delay
    }

    /// The number of peers that a retry asks.
    pub closed spec fn retry_nodes(&self) -> usize {
        self.sync_retry_nodes
    }

    /// The latest round that consensus has told of.
    pub closed spec fn round(&self) -> Round {
        self.round
    }

    /// The batches that are being chased, oldest command first.
    pub closed spec fn pending(&self) -> Seq<PendingView> {
        pending_view(self.pending@)
    }

    /// No digest is chased twice, and none is chased from a round that lies
    /// ahead or more than the garbage-collection depth behind.
    pub open spec fn wf(&self) -> bool {
        &&& distinct_digests(self.pending())
        &&& forall|i: int|
            0 <= i < self.pending().len() ==> {
                let entry = #[trigger] self.pending()[i];
                entry.since <= self.round() && self.round() - entry.since <= self.gc_depth()
            }
    }

    /// Whether the settings are those of `other`.
    pub open spec fn same_settings(&self, other: &Synchronizer) -> bool {
        &&& self.name() == other.name()
        &&& self.authorities() == other.authorities()
        &&& self.gc_depth() == other.gc_depth()
        &&& self.retry_delay() == other.retry_delay()
        &&& self.retry_nodes() == other.retry_nodes()
    }

    /// A synchronizer at round 0 that chases nothing.
    pub fn new(
        name: PublicKey,
        committee: Committee,
        gc_depth: Round,
        sync_retry_delay: u64,
        sync_retry_nodes: usize,
    ) -> (synchronizer: Synchronizer)
        ensures
            synchronizer.wf(),
            synchronizer.name() == name,
            synchronizer.authorities() == committee@,
            synchronizer.gc_depth() == gc_depth,
            synchronizer.retry_delay() == sync_retry_delay,
            synchronizer.retry_nodes() == sync_retry_nodes,
            synchronizer.round() == 0,
            synchronizer.pending() == Seq::<PendingView>::empty(),
    {
        let synchronizer = Synchronizer {
            name,
            committee,
            gc_depth,
            sync_retry_delay,
            sync_retry_nodes,
            round: 0,
            pending: Vec::new(),
        };
        assert(synchronizer.pending() =~= Seq::<PendingView>::empty());
        synchronizer
    }

    /// The latest round that consensus has told of.
    pub fn current_round(&self) -> (round: Round)
        ensures
            round == self.round(),
    {
        self.round
    }

    /// The batches that are being chased.
    pub fn pending_syncs(&self) -> (entries: &Vec<PendingSync>)
        ensures
            pending_view(entries@) == self.pending(),
    {
        &self.pending
    }

    /// Where `digest` stands among the batches that are chased.
    fn find_pending(&self, digest: &Digest) -> (found: Option<usize>)
        ensures
            match found {
                Some(i) => i < self.pending().len() && self.pending()[i as int].digest == *digest,
                None => !is_pending(self.pending(), *digest),
            },
    {
        let n = self.pending.len();
        let mut i: usize = 0;
        while i < n
            invariant
                i <= n == self.pending@.len(),
                forall|j: int| 0 <= j < i ==> (#[trigger] self.pending()[j]).digest != *digest,
            decreases n - i,
        {
            if self.pending[i].digest == *digest {
                return Some(i);
            }
            i += 1;
        }
        None
    }

    /// Whether `digest` is being chased.
    pub fn is_chasing(&self, digest: &Digest) -> (chasing: bool)
        ensures
            chasing == is_pending(self.pending(), *digest),
    {
        self.find_pending(digest).is_some()
    }

    /// Consensus misses batches and names a peer that has them. `checked`
    /// holds each digest of the command with what the store just said of it.
    pub fn synchronize(
        &mut self,
        checked: Vec<(Digest, StoreLookup)>,
        target: &PublicKey,
        now: u64,
    ) -> (outcome: Synchronized)
        requires
            old(self).wf(),
        ensures
            final(self).wf(),
            final(self).same_settings(old(self)),
            final(self).round() == old(self).round(),
            final(self).pending() == admitted(
                old(self).pending(),
                checked@,
                old(self).round(),
                now,
            ),
            final(self).pending().len() >= old(self).pending().len(),
            outcome.wait_for@ == digests_of(
                final(self).pending().skip(old(self).pending().len() as int),
            ),
            match outcome.request {
                Some(request) => {
                    &&& outcome.wait_for@.len() > 0
                    &&& find_authority(old(self).authorities(), *target) matches Some(authority)
                    &&& request.address == authority.address
                    &&& request.message@ == request_bytes(outcome.wait_for@, old(self).name())
                },
                None => outcome.wait_for@.len() == 0 || find_authority(
                    old(self).authorities(),
                    *target,
                ) is None,
            },
    {
        let n = checked.len();
        let ghost start = self.pending();
        let mut missing: Vec<Digest> = Vec::new();
        let mut k: usize = 0;
        assert(checked@.take(0) =~= Seq::<(Digest, StoreLookup)>::empty());
        assert(missing@ =~= digests_of(self.pending().skip(start.len() as int)));
        while k < n
            invariant
                k <= n == checked@.len(),
                self.wf(),
                self.same_settings(old(self)),
                self.round() == old(self).round(),
                start == old(self).pending(),
                self.pending().len() >= start.len(),
                self.pending() == admitted(start, checked@.take(k as int), old(self).round(), now),
                missing@ == digests_of(self.pending().skip(start.len() as int)),
            decreases n - k,
        {
            let ghost before = self.pending();
            assert(checked@.take(k + 1).drop_last() =~= checked@.take(k as int));
            let (digest, lookup) = checked[k];
            let known = self.find_pending(&digest);
            if !(lookup == StoreLookup::Present) && known.is_none() {
                let entry = PendingSync {
                    digest,
                    since: self.round,
                    tried: Vec::new(),
                    requested_at: now,
                };
                self.pending.push(entry);
                missing.push(digest);
                proof {
                    let added = PendingView {
                        digest,
                        since: old(self).round(),
                        tried: Seq::empty(),
                        requested_at: now,
                    };
                    assert(entry@ == added);
                    assert(self.pending() =~= before.push(added));
                    assert(self.pending().skip(start.len() as int) =~= before.skip(
                        start.len() as int,
                    ).push(added));
                    assert(missing@ =~= digests_of(self.pending().skip(start.len() as int)));
                    assert forall|i: int, j: int|
                        0 <= i < j < self.pending().len() implies (
                    #[trigger] self.pending()[i]).digest != (
                    #[trigger] self.pending()[j]).digest by {
                        assert(self.pending()[i] == before[i]);
                        if j < before.len() {
                            assert(self.pending()[j] == before[j]);
                        }
                    }
                    assert forall|i: int| 0 <= i < self.pending().len() implies {
                        let e = #[trigger] self.pending()[i];
                        e.since <= self.round() && self.round() - e.since <= self.gc_depth()
                    } by {
                        if i < before.len() {
                            assert(self.pending()[i] == before[i]);
                        }
                    }
                }
            }
            k += 1;
        }
        assert(checked@.take(n as int) =~= checked@);
        let request = if missing.len() > 0 {
            match self.committee.mempool_address(target) {
                Some(address) => {
                    let message = serialize_batch_request(&missing, &self.name);
                    Some(SyncRequest { address, message })
                },
                None => None,
            }
        } else {
            None
        };
        Synchronized { wait_for: missing, request }
    }

    /// Consensus has reached `round`: what is too old is given up. Gives the
    /// digests given up, whose waits are to be cancelled.
    pub fn cleanup(&mut self, round: Round) -> (cancelled: Vec<Digest>)
        requires
            old(self).wf(),
        ensures
            final(self).wf(),
            final(self).same_settings(old(self)),
            final(self).round() == round_after(old(self).round(), round),
            final(self).pending() == kept(
                old(self).pending(),
                final(self).round(),
                old(self).gc_depth(),
            ),
            cancelled@ == dropped(old(self).pending(), final(self).round(), old(self).gc_depth()),
    {
        let ghost start = self.pending();
        if round > self.round {
            self.round = round;
        }
        let now_round = self.round;
        let gc_depth = self.gc_depth;
        let mut cancelled: Vec<Digest> = Vec::new();
        let mut at: usize = 0;
        let ghost mut seen: int = 0;
        assert(start.take(0) =~= Seq::<PendingView>::empty());
        assert(self.pending() =~= kept(start.take(0), now_round, gc_depth) + start.skip(0));
        while at < self.pending.len()
            invariant
                self.same_settings(old(self)),
                self.round() == now_round,
                self.gc_depth() == gc_depth,
                now_round >= old(self).round(),
                start == old(self).pending(),
                old(self).wf(),
                0 <= seen <= start.len(),
                at == kept(start.take(seen), now_round, gc_depth).len(),
                self.pending() == kept(start.take(seen), now_round, gc_depth) + start.skip(seen),
                cancelled@ == dropped(start.take(seen), now_round, gc_depth),
            decreases start.len() - seen,
        {
            let ghost before = self.pending();
            let ghost done = kept(start.take(seen), now_round, gc_depth);
            assert(before[at as int] == start.skip(seen)[0]);
            assert(start.take(seen + 1).drop_last() =~= start.take(seen));
            assert(start.take(seen + 1).last() == start[seen]);
            assert(self.pending@[at as int]@ == start[seen]);
            let since = self.pending[at].since;
            assert(since <= old(self).round());
            if now_round - since > gc_depth {
                let entry = self.pending.remove(at);
                cancelled.push(entry.digest);
                assert(self.pending() =~= before.remove(at as int));
                assert(before.remove(at as int) =~= done + start.skip(seen + 1));
            } else {
                at += 1;
                assert(before =~= done.push(start[seen]) + start.skip(seen + 1));
            }
            proof {
                seen = seen + 1;
            }
        }
        proof {
            assert(seen == start.len()) by {
                assert(self.pending().len() == at + start.skip(seen).len());
            }
            assert(start.take(seen) =~= start);
            assert(self.pending() =~= kept(start, now_round, gc_depth));
            lemma_kept(start, now_round, gc_depth);
            assert forall|i: int| 0 <= i < self.pending().len() implies {
                let e = #[trigger] self.pending()[i];
                e.since <= self.round() && self.round() - e.since <= self.gc_depth()
            } by {
                let e = self.pending()[i];
                let j = choose|j: int| i <= j < start.len() && start[j] == e;
                assert(start[j].since <= old(self).round());
            }
        }
        cancelled
    }

    /// The batch with this digest has arrived in the store: it is chased no
    /// longer. Tells whether it was chased.
    pub fn delivered(&mut self, digest: &Digest) -> (was_pending: bool)
        requires
            old(self).wf(),
        ensures
            final(self).wf(),
            final(self).same_settings(old(self)),
            final(self).round() == old(self).round(),
            was_pending == is_pending(old(self).pending(), *digest),
            !is_pending(final(self).pending(), *digest),
            final(self).pending() == old(self).pending().filter(
                |entry: PendingView| entry.digest != *digest,
            ),
    {
        let ghost start = self.pending();
        let ghost others = |entry: PendingView| entry.digest != *digest;
        match self.find_pending(digest) {
            Some(i) => {
                self.pending.remove(i);
                proof {
                    assert(self.pending() =~= start.remove(i as int));
                    lemma_filter_removes_one(start, *digest, i as int);
                    let rest = self.pending();
                    assert forall|a: int| 0 <= a < rest.len() implies (#[trigger] rest[a]).digest
                        != *digest by {
                        if a < i {
                            assert(rest[a] == start[a]);
                        } else {
                            assert(rest[a] == start[a + 1]);
                        }
                    }
                    assert forall|a: int, b: int| 0 <= a < b < rest.len() implies (
                    #[trigger] rest[a]).digest != (#[trigger] rest[b]).digest by {
                        let x = if a < i { a } else { a + 1 };
                        let y = if b < i { b } else { b + 1 };
                        assert(rest[a] == start[x]);
                        assert(rest[b] == start[y]);
                    }
                    assert forall|a: int| 0 <= a < rest.len() implies {
                        let e = #[trigger] rest[a];
                        e.since <= self.round() && self.round() - e.since <= self.gc_depth()
                    } by {
                        let x = if a < i { a } else { a + 1 };
                        assert(rest[a] == start[x]);
                    }
                }
                true
            },
            None => {
                proof {
                    lemma_filter_keeps_all(start, *digest);
                }
                false
            },
        }
    }

    /// The peers that a retry may ask, given those tried.
    fn select(&self, tried: &Vec<PublicKey>) -> (fresh: Vec<Authority>)
        ensures
            fresh@ == untried(self.authorities(), self.name(), tried@),
    {
        let all = self.committee.authorities();
        let n = all.len();
        let mut fresh: Vec<Authority> = Vec::new();
        let mut k: usize = 0;
        assert(all@.take(0) =~= Seq::<Authority>::empty());
        while k < n
            invariant
                k <= n == all@.len(),
                all@ == self.authorities(),
                fresh@ == untried(all@.take(k as int), self.name(), tried@),
            decreases n - k,
        {
            assert(all@.take(k + 1).drop_last() =~= all@.take(k as int));
            let authority = all[k];
            let asked = find_key(tried, &authority.name);
            proof {
                lemma_position(tried@, authority.name);
                if asked is Some {
                    assert(tried@.contains(tried@[asked.unwrap() as int]));
                }
            }
            if !(authority.name == self.name) && asked.is_none() {
                fresh.push(authority);
            }
            k += 1;
        }
        assert(all@.take(n as int) =~= all@);
        fresh
    }

    /// Asks the next peers for the batch of `entry`.
    fn retry(&self, entry: &mut PendingSync, now: u64) -> (retry: Retry)
        ensures
            final(entry)@ == retried(
                old(entry)@,
                self.authorities(),
                self.name(),
                self.retry_nodes(),
                now,
            ),
            retry@ == retry_of(old(entry)@, self.authorities(), self.name(), self.retry_nodes()),
    {
        let mut pool = self.select(&entry.tried);
        if pool.len() == 0 {
            entry.tried = Vec::new();
            pool = self.select(&entry.tried);
        }
        if pool.len() > self.sync_retry_nodes {
            pool.truncate(self.sync_retry_nodes);
        }
        let ghost targets = pool@;
        let ghost base = entry.tried@;
        let mut addresses: Vec<Address> = Vec::new();
        let n = pool.len();
        let mut k: usize = 0;
        while k < n
            invariant
                k <= n == pool@.len(),
                pool@ == targets,
                entry.digest == old(entry).digest,
                entry.since == old(entry).since,
                entry.tried@ == base + names_of(targets.take(k as int)),
                addresses@ == addresses_of(targets.take(k as int)),
            decreases n - k,
        {
            entry.tried.push(pool[k].name);
            addresses.push(pool[k].address);
            proof {
                assert(names_of(targets.take(k + 1)) =~= names_of(targets.take(k as int)).push(
                    targets[k as int].name,
                ));
                assert(addresses_of(targets.take(k + 1)) =~= addresses_of(
                    targets.take(k as int),
                ).push(targets[k as int].address));
                assert(entry.tried@ =~= base + names_of(targets.take(k + 1)));
            }
            k += 1;
        }
        assert(targets.take(n as int) =~= targets);
        entry.requested_at = now;
        let mut wanted: Vec<Digest> = Vec::new();
        wanted.push(entry.digest);
        assert(wanted@ =~= seq![entry.digest]);
        let message = serialize_batch_request(&wanted, &self.name);
        Retry { digest: entry.digest, message, addresses }
    }

    /// The clock reads `now`: every batch that was last asked for at least
    /// the retry delay ago is asked of the next peers.
    pub fn tick(&mut self, now: u64) -> (retries: Vec<Retry>)
        requires
            old(self).wf(),
        ensures
            final(self).wf(),
            final(self).same_settings(old(self)),
            final(self).round() == old(self).round(),
            final(self).pending().len() == old(self).pending().len(),
            forall|i: int|
                0 <= i < old(self).pending().len() ==> #[trigger] final(self).pending()[i]
                    == ticked(
                    old(self).pending()[i],
                    old(self).authorities(),
                    old(self).name(),
                    old(self).retry_nodes(),
                    now,
                    old(self).retry_delay(),
                ),
            retries_view(retries@) == due_retries(
                old(self).pending(),
                old(self).authorities(),
                old(self).name(),
                old(self).retry_nodes(),
                now,
                old(self).retry_delay(),
            ),
    {
        let ghost start = self.pending();
        let n = self.pending.len();
        let mut retries: Vec<Retry> = Vec::new();
        let mut k: usize = 0;
        assert(start.take(0) =~= Seq::<PendingView>::empty());
        assert(retries_view(retries@) =~= Seq::<RetryView>::empty());
        while k < n
            invariant
                k <= n == start.len(),
                start == old(self).pending(),
                old(self).wf(),
                self.same_settings(old(self)),
                self.round() == old(self).round(),
                self.pending().len() == n,
                forall|i: int|
                    0 <= i < k ==> #[trigger] self.pending()[i] == ticked(
                        start[i],
                        old(self).authorities(),
                        old(self).name(),
                        old(self).retry_nodes(),
                        now,
                        old(self).retry_delay(),
                    ),
                forall|i: int| k <= i < n ==> #[trigger] self.pending()[i] == start[i],
                retries_view(retries@) == due_retries(
                    start.take(k as int),
                    old(self).authorities(),
                    old(self).name(),
                    old(self).retry_nodes(),
                    now,
                    old(self).retry_delay(),
                ),
            decreases n - k,
        {
            let ghost before = self.pending();
            let ghost sent = retries_view(retries@);
            assert(start.take(k + 1).drop_last() =~= start.take(k as int));
            assert(before[k as int] == start[k as int]);
            let requested_at = self.pending[k].requested_at;
            if now >= requested_at && now - requested_at >= self.sync_retry_delay {
                let mut entry = self.pending.remove(k);
                let retry = self.retry(&mut entry, now);
                assert(retries_view(retries@.push(retry)) =~= sent.push(retry@));
                retries.push(retry);
                self.pending.insert(k, entry);
                assert(self.pending() =~= before.update(k as int, entry@));
            }
            k += 1;
        }
        assert(start.take(n as int) =~= start);
        proof {
            let after = self.pending();
            assert forall|i: int| 0 <= i < n implies (#[trigger] after[i]).digest
                == start[i].digest && after[i].since == start[i].since by {}
            assert forall|i: int, j: int| 0 <= i < j < after.len() implies (
            #[trigger] after[i]).digest != (#[trigger] after[j]).digest by {
                assert(start[i].digest != start[j].digest);
            }
            assert forall|i: int| 0 <= i < after.len() implies {
                let e = #[trigger] after[i];
                e.since <= self.round() && self.round() - e.since <= self.gc_depth()
            } by {
                assert(start[i].since <= old(self).round());
            }
        }
        retries
    }
}

/// Removing the one entry that carries a digest is filtering that digest out.
proof fn lemma_filter_removes_one(entries: Seq<PendingView>, digest: Digest, i: int)
    requires
        distinct_digests(entries),
        0 <= i < entries.len(),
        entries[i].digest == digest,
    ensures
        entries.filter(|entry: PendingView| entry.digest != digest) == entries.remove(i),
    decreases entries.len(),
{
    let others = |entry: PendingView| entry.digest != digest;
    reveal(Seq::filter);
    let shorter = entries.drop_last();
    if i == entries.len() - 1 {
        assert forall|a: int| 0 <= a < shorter.len() implies (#[trigger] shorter[a]).digest
            != digest by {
            assert(shorter[a] == entries[a]);
            assert(entries[a].digest != entries[i].digest);
        }
        lemma_filter_all(shorter, digest);
        assert(entries.remove(i) =~= shorter);
    } else {
        assert(distinct_digests(shorter)) by {
            assert forall|a: int, b: int| 0 <= a < b < shorter.len() implies (
            #[trigger] shorter[a]).digest != (#[trigger] shorter[b]).digest by {
                assert(shorter[a] == entries[a]);
                assert(shorter[b] == entries[b]);
            }
        }
        assert(shorter[i] == entries[i]);
        lemma_filter_removes_one(shorter, digest, i);
        assert(entries[i].digest != entries[entries.len() - 1].digest);
        assert(entries.remove(i) =~= shorter.remove(i).push(entries.last()));
    }
}

/// Where no entry carries the digest, filtering it out changes nothing.
proof fn lemma_filter_all(entries: Seq<PendingView>, digest: Digest)
    requires
        forall|a: int| 0 <= a < entries.len() ==> (#[trigger] entries[a]).digest != digest,
    ensures
        entries.filter(|entry: PendingView| entry.digest != digest) == entries,
    decreases entries.len(),
{
    reveal(Seq::filter);
    if entries.len() > 0 {
        let shorter = entries.drop_last();
        assert forall|a: int| 0 <= a < shorter.len() implies (#[trigger] shorter[a]).digest
            != digest by {
            assert(shorter[a] == entries[a]);
        }
        lemma_filter_all(shorter, digest);
        assert(shorter.push(entries.last()) =~= entries);
    } else {
        assert(entries.filter(|entry: PendingView| entry.digest != digest) =~= entries);
    }
}

/// A digest that is not chased is filtered out of nothing.
proof fn lemma_filter_keeps_all(entries: Seq<PendingView>, digest: Digest)
    requires
        !is_pending(entries, digest),
    ensures
        entries.filter(|entry: PendingView| entry.digest != digest) == entries,
{
    lemma_filter_all(entries, digest);
}

} // verus!
