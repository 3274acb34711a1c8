//! The committee of authorities and the tunable parameters of the mempool.

use crate::crypto::PublicKey;
use vstd::prelude::*;

verus! {

/// Voting power of an authority.
pub type Stake = u32;

/// Where the mempool of an authority listens: an IP address, held as a
/// number, and a port.
#[derive(Clone, Copy, Debug, PartialEq, Eq, Structural, Hash)]
pub struct Address {
    /// Whether `ip` is an IPv6 address; otherwise its low 32 bits are an IPv4 address.
    pub v6: bool,
    pub ip: u128,
    pub port: u16,
}

/// One member of the committee.
#[derive(Clone, Copy, Debug, PartialEq, Eq)]
pub struct Authority {
    pub name: PublicKey,
    pub stake: Stake,
    pub address: Address,
}

/// The tunable parameters of the mempool.
#[derive(Clone, Copy, Debug)]
pub struct Parameters {
    /// Size in bytes at which a batch is sealed.
    pub batch_size: usize,
    /// Milliseconds after which a non-empty batch is sealed whatever its size.
    pub max_batch_delay: u64,
    /// Number of rounds for which a missing batch is chased.
    pub gc_depth: u64,
    /// Milliseconds between two requests for the same missing batch.
    pub sync_retry_delay: u64,
    /// Number of peers asked by each retry.
    pub sync_retry_nodes: usize,
}

/// Why a list of authorities is no committee.
#[derive(Clone, Copy, Debug, PartialEq, Eq, Structural)]
pub enum CommitteeError {
    /// Two authorities carry the same name.
    DuplicateAuthority,
    /// The stakes add up to more than a `Stake` holds.
    StakeOverflow,
}

/// No name occurs twice.
pub open spec fn distinct_names(authorities: Seq<Authority>) -> bool {
    forall|i: int, j: int|
        0 <= i < j < authorities.len() ==> authorities[i].name != authorities[j].name
}

/// The sum of all stakes.
pub open spec fn total_stake(authorities: Seq<Authority>) -> nat
    decreases authorities.len(),
{
    if authorities.len() == 0 {
        0
    } else {
        total_stake(authorities.drop_last()) + authorities.last().stake as nat
    }
}

/// The first authority called `name`, if there is one.
pub open spec fn find_authority(authorities: Seq<Authority>, name: PublicKey) -> Option<Authority>
    decreases authorities.len(),
{
    if authorities.len() == 0 {
        None
    } else if authorities[0].name == name {
        Some(authorities[0])
    } else {
        find_authority(authorities.skip(1), name)
    }
}

/// The stake of `name`: zero for a stranger.
pub open spec fn stake_of(authorities: Seq<Authority>, name: PublicKey) -> nat {
    match find_authority(authorities, name) {
        Some(authority) => authority.stake as nat,
        None => 0,
    }
}

/// The smallest stake that makes a quorum out of a total: more than two thirds.
pub open spec fn quorum_of(total: nat) -> nat {
    2 * total / 3 + 1
}

/// Name and address of every authority but `myself`, in committee order.
pub open spec fn others(authorities: Seq<Authority>, myself: PublicKey) -> Seq<(PublicKey, Address)>
    decreases authorities.len(),
{
    if authorities.len() == 0 {
        Seq::empty()
    } else {
        let last = authorities.last();
        let before = others(authorities.drop_last(), myself);
        if last.name == myself {
            before
        } else {
            before.push((last.name, last.address))
        }
    }
}

/// A part of the list never outweighs the whole.
pub proof fn lemma_total_stake_prefix(authorities: Seq<Authority>, n: int)
    requires
        0 <= n <= authorities.len(),
    ensures
        total_stake(authorities.take(n)) <= total_stake(authorities),
    decreases authorities.len(),
{
    if n == authorities.len() {
        assert(authorities.take(n) =~= authorities);
    } else {
        lemma_total_stake_prefix(authorities.drop_last(), n);
        assert(authorities.drop_last().take(n) =~= authorities.take(n));
    }
}

/// What `find_authority` finds is in the list under that name, and it finds
/// nothing only where no entry carries the name.
pub proof fn lemma_find_authority(authorities: Seq<Authority>, name: PublicKey)
    ensures
        match find_authority(authorities, name) {
            Some(found) => found.name == name && authorities.contains(found),
            None => forall|i: int| 0 <= i < authorities.len() ==> authorities[i].name != name,
        },
    decreases authorities.len(),
{
    if authorities.len() == 0 {
    } else if authorities[0].name == name {
        assert(authorities[0] == authorities[0]);
    } else {
        let rest = authorities.skip(1);
        lemma_find_authority(rest, name);
        match find_authority(rest, name) {
            Some(found) => {
                let i = choose|i: int| 0 <= i < rest.len() && rest[i] == found;
                assert(authorities[i + 1] == found);
            },
            None => {
                assert forall|i: int| 0 <= i < authorities.len() implies authorities[i].name
                    != name by {
                    if i > 0 {
                        assert(rest[i - 1] == authorities[i]);
                    }
                }
            },
        }
    }
}

/// The authorities of a run: who they are, what each one's vote weighs, and
/// where each one listens. The list is fixed once made: names are distinct
/// and the total stake fits in a `Stake`.
#[derive(Debug)]
pub struct Committee {
    authorities: Vec<Authority>,
}

impl View for Committee {
    type V = Seq<Authority>;

    closed spec fn view(&self) -> Seq<Authority> {
        self.authorities@
    }
}

impl Clone for Committee {
    fn clone(&self) -> (copy: Committee)
        ensures
            copy@ == self@,
    {
        proof {
            use_type_invariant(self);
        }
        let n = self.authorities.len();
        let mut authorities: Vec<Authority> = Vec::new();
        let mut k: usize = 0;
        while k < n
            invariant
                k <= n == self.authorities@.len(),
                authorities@ == self.authorities@.take(k as int),
            decreases n - k,
        {
            authorities.push(self.authorities[k]);
            assert(self.authorities@.take(k + 1) =~= self.authorities@.take(k as int).push(
                self.authorities@[k as int],
            ));
            k += 1;
        }
        assert(self.authorities@.take(n as int) =~= self.authorities@);
        Committee { authorities }
    }
}

impl Committee {
    /// Names are distinct and the total stake fits in a `Stake`.
    pub open spec fn wf(&self) -> bool {
        &&& distinct_names(self@)
        &&& total_stake(self@) <= u32::MAX
    }

    /// Every committee is well formed.
    #[verifier::type_invariant]
    pub open spec fn inv(&self) -> bool {
        self.wf()
    }

    /// The committee made of `authorities`, in the order given.
    pub fn new(authorities: Vec<Authority>) -> (made: Result<Committee, CommitteeError>)
        ensures
            match made {
                Ok(committee) => committee@ == authorities@ && committee.wf(),
                Err(CommitteeError::DuplicateAuthority) => !distinct_names(authorities@),
                Err(CommitteeError::StakeOverflow) => distinct_names(authorities@) && total_stake(
                    authorities@,
                ) > u32::MAX,
            },
    {
        let n = authorities.len();
        let mut i: usize = 0;
        while i < n
            invariant
                i <= n == authorities@.len(),
                forall|a: int, b: int| 0 <= a < b < n && a < i ==> authorities@[a].name != authorities@[b].name,
            decreases n - i,
        {
            let mut j: usize = i + 1;
            while j < n
                invariant
                    i < j <= n == authorities@.len(),
                    forall|b: int| i < b < j ==> authorities@[i as int].name != authorities@[b].name,
                decreases n - j,
            {
                if authorities[i].name == authorities[j].name {
                    return Err(CommitteeError::DuplicateAuthority);
                }
                j += 1;
            }
            i += 1;
        }
        let mut total: Stake = 0;
        let mut k: usize = 0;
        assert(authorities@.take(0) =~= Seq::<Authority>::empty());
        while k < n
            invariant
                k <= n == authorities@.len(),
                distinct_names(authorities@),
                total as nat == total_stake(authorities@.take(k as int)),
            decreases n - k,
        {
            proof {
                assert(authorities@.take(k + 1).drop_last() =~= authorities@.take(k as int));
                lemma_total_stake_prefix(authorities@, k + 1);
            }
            match total.checked_add(authorities[k].stake) {
                Some(sum) => {
                    total = sum;
                },
                None => {
                    return Err(CommitteeError::StakeOverflow);
                },
            }
            k += 1;
        }
        assert(authorities@.take(n as int) =~= authorities@);
        Ok(Committee { authorities })
    }

    /// The number of authorities.
    pub fn size(&self) -> (n: usize)
        ensures
            n == self@.len(),
    {
        self.authorities.len()
    }

    /// The authorities, in committee order.
    pub fn authorities(&self) -> (list: &Vec<Authority>)
        ensures
            list@ == self@,
    {
        &self.authorities
    }

    /// The entry of `name`, if it is an authority.
    pub fn authority(&self, name: &PublicKey) -> (found: Option<Authority>)
        ensures
            found == find_authority(self@, *name),
    {
        let n = self.authorities.len();
        let mut i: usize = 0;
        assert(self@.skip(0) =~= self@);
        while i < n
            invariant
                i <= n == self@.len(),
                self@ == self.authorities@,
                find_authority(self@, *name) == find_authority(self@.skip(i as int), *name),
            decreases n - i,
        {
            if self.authorities[i].name == *name {
                return Some(self.authorities[i]);
            }
            assert(self@.skip(i as int).skip(1) =~= self@.skip(i + 1));
            i += 1;
        }
        None
    }

    /// The stake of `name`, zero if it is no authority.
    pub fn stake(&self, name: &PublicKey) -> (stake: Stake)
        ensures
            stake as nat == stake_of(self@, *name),
    {
        match self.authority(name) {
            Some(authority) => authority.stake,
            None => 0,
        }
    }

    /// The address of the mempool of `name`, if it is an authority.
    pub fn mempool_address(&self, name: &PublicKey) -> (address: Option<Address>)
        ensures
            address == match find_authority(self@, *name) {
                Some(authority) => Some(authority.address),
                None => None,
            },
    {
        match self.authority(name) {
            Some(authority) => Some(authority.address),
            None => None,
        }
    }

    /// The sum of all stakes.
    pub fn total_stake(&self) -> (total: Stake)
        ensures
            total as nat == total_stake(self@),
    {
        proof {
            use_type_invariant(self);
        }
        let n = self.authorities.len();
        let mut total: Stake = 0;
        let mut k: usize = 0;
        assert(self@.take(0) =~= Seq::<Authority>::empty());
        while k < n
            invariant
                k <= n == self@.len(),
                self@ == self.authorities@,
                total_stake(self@) <= u32::MAX,
                total as nat == total_stake(self@.take(k as int)),
            decreases n - k,
        {
            proof {
                assert(self@.take(k + 1).drop_last() =~= self@.take(k as int));
                lemma_total_stake_prefix(self@, k + 1);
            }
            total = total + self.authorities[k].stake;
            k += 1;
        }
        assert(self@.take(n as int) =~= self@);
        total
    }

    /// The stake that a quorum needs: more than two thirds of the total.
    pub fn quorum_threshold(&self) -> (threshold: Stake)
        ensures
            threshold as nat == quorum_of(total_stake(self@)),
    {
        let total = self.total_stake();
        total / 3 * 2 + (total % 3 * 2) / 3 + 1
    }

    /// Name and address of every authority but `myself`, in committee order.
    pub fn broadcast_addresses(&self, myself: &PublicKey) -> (peers: Vec<(PublicKey, Address)>)
        ensures
            peers@ == others(self@, *myself),
    {
        let n = self.authorities.len();
        let mut peers: Vec<(PublicKey, Address)> = Vec::new();
        let mut k: usize = 0;
        assert(self@.take(0) =~= Seq::<Authority>::empty());
        while k < n
            invariant
                k <= n == self@.len(),
                self@ == self.authorities@,
                peers@ == others(self@.take(k as int), *myself),
            decreases n - k,
        {
            assert(self@.take(k + 1).drop_last() =~= self@.take(k as int));
            let authority = self.authorities[k];
            if !(authority.name == *myself) {
                peers.push((authority.name, authority.address));
            }
            k += 1;
        }
        assert(self@.take(n as int) =~= self@);
        peers
    }
}

} // verus!
