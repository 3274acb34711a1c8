//! Holds each outgoing batch until a quorum of stake has acknowledged it.
//!
//! The wait for one batch is a small state machine: the peers whose
//! acknowledgement is outstanding, and the peers that have acknowledged. It
//! ends when the stake of the peers that acknowledged, together with the
//! stake of this authority, reaches the quorum threshold.

use crate::config::{
    find_authority, lemma_find_authority, quorum_of, stake_of, total_stake, Authority, Committee,
    Stake,
};
use crate::crypto::{find_key, lemma_position, position, PublicKey};
use crate::messages::SerializedBatchMessage;
use vstd::prelude::*;

verus! {

/// The wait for one batch, as plain values.
pub struct WaitView {
    /// The wire form of the batch.
    pub batch: Seq<u8>,
    /// The peers whose acknowledgement is outstanding.
    pub remaining: Seq<PublicKey>,
    /// The peers that have acknowledged, in the order in which they did.
    pub acked: Seq<PublicKey>,
}

/// The outcome of a step of the wait, as plain values.
pub enum StepView {
    /// The quorum is not reached yet.
    Waiting(WaitView),
    /// The quorum is reached: the batch goes on, and the deliveries still
    /// outstanding are cancelled.
    Released { batch: Seq<u8>, acked: Seq<PublicKey>, cancelled: Seq<PublicKey> },
}

/// The stake of a list of peers, each occurrence counted.
pub open spec fn stake_sum(authorities: Seq<Authority>, peers: Seq<PublicKey>) -> nat
    decreases peers.len(),
{
    if peers.len() == 0 {
        0
    } else {
        stake_sum(authorities, peers.drop_last()) + stake_of(authorities, peers.last())
    }
}

/// Whether the stake of the peers that acknowledged, added to the stake of
/// the producer, makes a quorum.
pub open spec fn quorum_reached(authorities: Seq<Authority>, own: Stake, acked: Seq<PublicKey>) -> bool {
    stake_sum(authorities, acked) >= quorum_of(total_stake(authorities)) - own
}

/// The start of the wait for a batch that was broadcast to `peers`.
pub open spec fn begin_spec(
    authorities: Seq<Authority>,
    own: Stake,
    batch: Seq<u8>,
    peers: Seq<PublicKey>,
) -> StepView {
    if quorum_reached(authorities, own, Seq::empty()) {
        StepView::Released { batch, acked: Seq::empty(), cancelled: peers }
    } else {
        StepView::Waiting(WaitView { batch, remaining: peers, acked: Seq::empty() })
    }
}

/// The step that an acknowledgement from `peer` makes. It counts once, and
/// only if a delivery to `peer` is outstanding.
pub open spec fn acknowledge_spec(
    authorities: Seq<Authority>,
    own: Stake,
    wait: WaitView,
    peer: PublicKey,
) -> StepView {
    match position(wait.remaining, peer) {
        Some(i) if !wait.acked.contains(peer) => {
            let remaining = wait.remaining.remove(i);
            let acked = wait.acked.push(peer);
            if quorum_reached(authorities, own, acked) {
                StepView::Released { batch: wait.batch, acked, cancelled: remaining }
            } else {
                StepView::Waiting(WaitView { batch: wait.batch, remaining, acked })
            }
        },
        _ => StepView::Waiting(wait),
    }
}

/// One more peer adds its stake to the sum.
pub proof fn lemma_stake_sum_push(authorities: Seq<Authority>, peers: Seq<PublicKey>, peer: PublicKey)
    ensures
        stake_sum(authorities, peers.push(peer)) == stake_sum(authorities, peers) + stake_of(
            authorities,
            peer,
        ),
{
    assert(peers.push(peer).drop_last() =~= peers);
}

/// A wait that starts released needs no peer: the stake of the producer is a
/// quorum by itself.
pub proof fn lemma_begin_needs_quorum(
    authorities: Seq<Authority>,
    own: Stake,
    batch: Seq<u8>,
    peers: Seq<PublicKey>,
)
    ensures
        begin_spec(authorities, own, batch, peers) is Released <==> own >= quorum_of(
            total_stake(authorities),
        ),
{
}

/// A batch is released only on a quorum of stake, gathered from peers that
/// are all different: whenever an acknowledgement releases the batch, the
/// peers that acknowledged are distinct and their stake, with the stake of
/// the producer, reaches the quorum threshold.
pub proof fn lemma_release_needs_quorum(
    authorities: Seq<Authority>,
    own: Stake,
    wait: WaitView,
    peer: PublicKey,
)
    requires
        wait.acked.no_duplicates(),
    ensures
        match acknowledge_spec(authorities, own, wait, peer) {
            StepView::Released { batch, acked, cancelled } => {
                &&& batch == wait.batch
                &&& acked.no_duplicates()
                &&& stake_sum(authorities, acked) + own >= quorum_of(total_stake(authorities))
            },
            StepView::Waiting(next) => {
                &&& next.batch == wait.batch
                &&& next.acked.no_duplicates()
                &&& next == wait || !quorum_reached(authorities, own, next.acked)
            },
        },
{
    match position(wait.remaining, peer) {
        Some(i) => {
            if !wait.acked.contains(peer) {
                let acked = wait.acked.push(peer);
                assert forall|a: int, b: int| 0 <= a < acked.len() && 0 <= b < acked.len() && a
                    != b implies acked[a] != acked[b] by {
                    if a == wait.acked.len() {
                        assert(wait.acked.contains(acked[b]));
                    } else if b == wait.acked.len() {
                        assert(wait.acked.contains(acked[a]));
                    }
                }
            }
        },
        None => {},
    }
}

/// Where no authority holds more than one unit of stake, the stake of a list
/// of peers is at most their number: a quorum of stake is then a quorum of
/// heads.
pub proof fn lemma_stake_sum_counts_heads(authorities: Seq<Authority>, peers: Seq<PublicKey>)
    requires
        forall|i: int| 0 <= i < authorities.len() ==> (#[trigger] authorities[i]).stake <= 1,
    ensures
        stake_sum(authorities, peers) <= peers.len(),
    decreases peers.len(),
{
    if peers.len() > 0 {
        lemma_stake_sum_counts_heads(authorities, peers.drop_last());
        lemma_find_authority(authorities, peers.last());
    }
}

/// Where every authority holds one unit of stake, the total is their number.
pub proof fn lemma_unit_total(authorities: Seq<Authority>)
    requires
        forall|i: int| 0 <= i < authorities.len() ==> (#[trigger] authorities[i]).stake == 1,
    ensures
        total_stake(authorities) == authorities.len(),
    decreases authorities.len(),
{
    if authorities.len() > 0 {
        let shorter = authorities.drop_last();
        assert forall|i: int| 0 <= i < shorter.len() implies (#[trigger] shorter[i]).stake
            == 1 by {
            assert(shorter[i] == authorities[i]);
        }
        lemma_unit_total(shorter);
    }
}

/// Where every authority holds one unit of stake, the stake of a list of
/// authorities is their number.
pub proof fn lemma_unit_stake_sum(authorities: Seq<Authority>, peers: Seq<PublicKey>)
    requires
        forall|i: int| 0 <= i < authorities.len() ==> (#[trigger] authorities[i]).stake == 1,
        forall|i: int| 0 <= i < peers.len() ==> find_authority(authorities, #[trigger] peers[i]) is Some,
    ensures
        stake_sum(authorities, peers) == peers.len(),
    decreases peers.len(),
{
    if peers.len() > 0 {
        let shorter = peers.drop_last();
        assert forall|i: int| 0 <= i < shorter.len() implies find_authority(
            authorities,
            #[trigger] shorter[i],
        ) is Some by {
            assert(shorter[i] == peers[i]);
        }
        lemma_unit_stake_sum(authorities, shorter);
        lemma_find_authority(authorities, peers.last());
    }
}

/// Silent peers do not stall the wait: among `3f + 1` authorities of one unit
/// of stake each, the acknowledgements of any `2f` of them make a quorum for
/// a batch of another, however many of the rest never answer.
pub proof fn lemma_quorum_despite_silent_peers(
    authorities: Seq<Authority>,
    faulty: nat,
    acked: Seq<PublicKey>,
)
    requires
        authorities.len() == 3 * faulty + 1,
        forall|i: int| 0 <= i < authorities.len() ==> (#[trigger] authorities[i]).stake == 1,
        forall|i: int| 0 <= i < acked.len() ==> find_authority(authorities, #[trigger] acked[i]) is Some,
        acked.len() >= 2 * faulty,
    ensures
        quorum_of(total_stake(authorities)) == 2 * faulty + 1,
        quorum_reached(authorities, 1, acked),
{
    lemma_unit_total(authorities);
    lemma_unit_stake_sum(authorities, acked);
}

/// The wait for the acknowledgements of one batch.
#[derive(Debug)]
pub struct QuorumWait {
    batch: SerializedBatchMessage,
    remaining: Vec<PublicKey>,
    acked: Vec<PublicKey>,
    gathered: Stake,
}

/// A batch that a quorum has acknowledged.
#[derive(Debug)]
pub struct Release {
    /// The wire form of the batch, to be stored and announced.
    pub batch: SerializedBatchMessage,
    /// The peers whose acknowledgements made the quorum.
    pub acked: Vec<PublicKey>,
    /// The peers whose deliveries are cancelled: their answer is no longer needed.
    pub cancelled: Vec<PublicKey>,
}

/// The outcome of a step of the wait.
#[derive(Debug)]
pub enum QuorumStep {
    Waiting(QuorumWait),
    Released(Release),
}

impl View for QuorumWait {
    type V = WaitView;

    closed spec fn view(&self) -> WaitView {
        WaitView { batch: self.batch@, remaining: self.remaining@, acked: self.acked@ }
    }
}

impl View for QuorumStep {
    type V = StepView;

    open spec fn view(&self) -> StepView {
        match self {
            QuorumStep::Waiting(wait) => StepView::Waiting(wait@),
            QuorumStep::Released(release) => StepView::Released {
                batch: release.batch@,
                acked: release.acked@,
                cancelled: release.cancelled@,
            },
        }
    }
}

impl QuorumWait {
    /// The wire form of the batch that waits.
    pub fn batch(&self) -> (batch: &SerializedBatchMessage)
        ensures
            batch@ == self@.batch,
    {
        &self.batch
    }

    /// The peers whose acknowledgement is outstanding.
    pub fn remaining(&self) -> (peers: &Vec<PublicKey>)
        ensures
            peers@ == self@.remaining,
    {
        &self.remaining
    }

    /// The peers that have acknowledged.
    pub fn acked(&self) -> (peers: &Vec<PublicKey>)
        ensures
            peers@ == self@.acked,
    {
        &self.acked
    }

    /// Whether every delivery has been answered: the wait can then make no
    /// further step, and the batch stays held.
    pub fn is_stalled(&self) -> (stalled: bool)
        ensures
            stalled == (self@.remaining.len() == 0),
    {
        self.remaining.len() == 0
    }
}

/// Waits for a quorum of acknowledgements on behalf of one authority.
#[derive(Debug)]
pub struct QuorumWaiter {
    committee: Committee,
    stake: Stake,
    threshold: Stake,
}

impl QuorumWaiter {
    /// The authorities whose stake counts.
    pub closed spec fn authorities(&self) -> Seq<Authority> {
        self.committee@
    }

    /// The stake of the authority that produces the batches.
    pub closed spec fn own_stake(&self) -> Stake {
        self.stake
    }

    /// The threshold is that of the committee.
    #[verifier::type_invariant]
    closed spec fn inv(&self) -> bool {
        self.threshold as nat == quorum_of(total_stake(self.committee@))
    }

    /// Whether `wait` is a wait of this waiter that has not reached its
    /// quorum: the peers that acknowledged are distinct, their stake is
    /// counted exactly, and it is short of the threshold.
    pub closed spec fn tracks(&self, wait: &QuorumWait) -> bool {
        &&& wait.acked@.no_duplicates()
        &&& wait.gathered as nat == stake_sum(self.committee@, wait.acked@)
        &&& !quorum_reached(self.committee@, self.stake, wait.acked@)
    }

    /// What `tracks` says of a wait, in terms of its view.
    pub proof fn lemma_tracks(&self, wait: &QuorumWait)
        requires
            self.tracks(wait),
        ensures
            wait@.acked.no_duplicates(),
            !quorum_reached(self.authorities(), self.own_stake(), wait@.acked),
    {
    }

    /// A waiter for the batches of the authority that holds `stake` in `committee`.
    pub fn new(committee: Committee, stake: Stake) -> (waiter: QuorumWaiter)
        ensures
            waiter.authorities() == committee@,
            waiter.own_stake() == stake,
    {
        let threshold = committee.quorum_threshold();
        QuorumWaiter { committee, stake, threshold }
    }

    /// Starts the wait for `batch`, which was broadcast to `peers`.
    pub fn begin(&self, batch: SerializedBatchMessage, peers: Vec<PublicKey>) -> (step: QuorumStep)
        ensures
            step@ == begin_spec(self.authorities(), self.own_stake(), batch@, peers@),
            step matches QuorumStep::Waiting(wait) ==> self.tracks(&wait),
    {
        proof {
            use_type_invariant(self);
        }
        if self.stake >= self.threshold {
            QuorumStep::Released(Release { batch, acked: Vec::new(), cancelled: peers })
        } else {
            QuorumStep::Waiting(QuorumWait { batch, remaining: peers, acked: Vec::new(), gathered: 0 })
        }
    }

    /// Takes in the acknowledgement of `peer`.
    pub fn acknowledge(&self, wait: QuorumWait, peer: &PublicKey) -> (step: QuorumStep)
        requires
            self.tracks(&wait),
        ensures
            step@ == acknowledge_spec(self.authorities(), self.own_stake(), wait@, *peer),
            step matches QuorumStep::Waiting(next) ==> self.tracks(&next),
    {
        proof {
            use_type_invariant(self);
        }
        let ghost before = wait@;
        let QuorumWait { batch, remaining, acked, gathered } = wait;
        let mut remaining = remaining;
        let mut acked = acked;
        let known = find_key(&acked, peer);
        let place = find_key(&remaining, peer);
        proof {
            lemma_position(acked@, *peer);
            lemma_position(remaining@, *peer);
            lemma_release_needs_quorum(self.committee@, self.stake, before, *peer);
            lemma_stake_sum_push(self.committee@, acked@, *peer);
        }
        match place {
            Some(i) => {
                if known.is_some() {
                    return QuorumStep::Waiting(QuorumWait { batch, remaining, acked, gathered });
                }
                remaining.remove(i);
                acked.push(*peer);
                let stake = self.committee.stake(peer);
                let sum: u64 = gathered as u64 + stake as u64;
                if sum + self.stake as u64 >= self.threshold as u64 {
                    QuorumStep::Released(Release { batch, acked, cancelled: remaining })
                } else {
                    QuorumStep::Waiting(
                        QuorumWait { batch, remaining, acked, gathered: sum as Stake },
                    )
                }
            },
            None => QuorumStep::Waiting(QuorumWait { batch, remaining, acked, gathered }),
        }
    }
}

} // verus!
