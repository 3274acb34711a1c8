//! The decisions of the block production service: when to produce, what to
//! try first, when to try again, and how each failure counts. The service
//! itself talks to a clock, a signer and beacon nodes; what it decides
//! between those talks is here, over plain values.

use std::sync::Arc;
use vstd::prelude::*;

verus! {

/// A slot number.
pub type Slot = u64;

/// An epoch number.
pub type Epoch = u64;

/// The public key of a validator, in compressed form.
#[derive(Clone, Copy, Debug)]
pub struct PublicKeyBytes(pub [u8; 48]);

/// The free-form field that a proposer leaves in its block.
#[derive(Clone, Copy, Debug)]
pub struct Graffiti(pub [u8; 32]);

/// Why no block was published.
#[derive(Debug)]
pub enum BlockError {
    /// Nothing was signed: another attempt is safe.
    Recoverable(String),
    /// A block was signed: another attempt could sign a second block for the slot.
    Irrecoverable(String),
    /// This operator does not lead the signing of the randao reveal.
    RandaoNotLeader,
    /// This operator does not lead the signing of the block.
    SignBlockNotLeader,
}

/// Why a beacon node was not asked.
#[derive(Clone, Copy, Debug, PartialEq, Eq, Structural)]
pub enum CandidateError {
    Uninitialized,
    Offline,
    Incompatible,
    NotSynced,
}

/// What went wrong with one beacon node.
#[derive(Debug)]
pub enum FallbackError {
    /// The node was not asked.
    Unavailable(CandidateError),
    /// The node was asked and the request failed.
    RequestFailed(BlockError),
}

/// The failures of all beacon nodes that were tried, each under the name of its node.
#[derive(Debug)]
pub struct Errors(pub Vec<(String, FallbackError)>);

/// Whether some node failed after a block was signed.
pub open spec fn any_irrecoverable(errors: Seq<(String, FallbackError)>) -> bool {
    exists|i: int|
        0 <= i < errors.len() && (#[trigger] errors[i]).1 matches FallbackError::RequestFailed(
            BlockError::Irrecoverable(_),
        )
}

/// How loudly a failure is reported.
#[derive(Clone, Copy, Debug, PartialEq, Eq, Structural)]
pub enum Severity {
    Info,
    Error,
    Critical,
}

/// The kind of block that is asked of a beacon node.
#[derive(Clone, Copy, Debug, PartialEq, Eq, Structural)]
pub enum BlockType {
    /// A block whose payload is known by its header alone.
    Blinded,
    /// A block with its payload.
    Full,
}

/// The step of a publication at which a beacon node failed.
#[derive(Clone, Copy, Debug, PartialEq, Eq, Structural)]
pub enum NodeStep {
    /// Fetching the block to sign.
    Fetch,
    /// Posting the signed block.
    Post,
}

/// The slot at which the merge takes effect: the first slot of the fork
/// epoch, and the end of time where no fork epoch is set.
pub open spec fn merge_slot_of(bellatrix_fork_epoch: Option<Epoch>, slots_per_epoch: u64) -> int {
    let epoch = match bellatrix_fork_epoch {
        Some(epoch) => epoch,
        None => u64::MAX,
    };
    if epoch * slots_per_epoch > u64::MAX {
        u64::MAX as int
    } else {
        epoch * slots_per_epoch
    }
}

/// The kind of block that is tried first for `slot`.
pub open spec fn first_block_type(private_tx_proposals: bool, slot: Slot, merge_slot: Slot) -> BlockType {
    if private_tx_proposals && slot >= merge_slot {
        BlockType::Blinded
    } else {
        BlockType::Full
    }
}

impl BlockError {
    /// The one error that stands for the failures of all beacon nodes: it is
    /// irrecoverable as soon as one node failed after a block was signed.
    /// `message` is the text that describes the failures.
    pub fn from_errors(errors: &Errors, message: String) -> (error: BlockError)
        ensures
            error == if any_irrecoverable(errors.0@) {
                BlockError::Irrecoverable(message)
            } else {
                BlockError::Recoverable(message)
            },
    {
        let n = errors.0.len();
        let mut i: usize = 0;
        while i < n
            invariant
                i <= n == errors.0@.len(),
                forall|j: int|
                    0 <= j < i ==> !((#[trigger] errors.0@[j]).1 matches FallbackError::RequestFailed(
                        BlockError::Irrecoverable(_),
                    )),
            decreases n - i,
        {
            match &errors.0[i].1 {
                FallbackError::RequestFailed(BlockError::Irrecoverable(_)) => {
                    return BlockError::Irrecoverable(message);
                },
                _ => {},
            }
            i += 1;
        }
        BlockError::Recoverable(message)
    }

    /// The error for a clock that does not tell the slot.
    pub fn clock_unreadable() -> (error: BlockError)
        ensures
            error matches BlockError::Recoverable(message) && message@
                == "Unable to determine current slot from clock"@,
    {
        BlockError::Recoverable("Unable to determine current slot from clock".to_owned())
    }

    /// The error for a randao reveal that could not be signed. `detail`
    /// describes the failure of the signer.
    pub fn randao_failure(not_leader: bool, detail: String) -> (error: BlockError)
        ensures
            error == if not_leader {
                BlockError::RandaoNotLeader
            } else {
                BlockError::Recoverable(detail)
            },
    {
        if not_leader {
            BlockError::RandaoNotLeader
        } else {
            BlockError::Recoverable(detail)
        }
    }

    /// The error for a block that could not be signed. `detail` describes the
    /// failure of the signer.
    pub fn signing_failure(not_leader: bool, detail: String) -> (error: BlockError)
        ensures
            error == if not_leader {
                BlockError::SignBlockNotLeader
            } else {
                BlockError::Recoverable(detail)
            },
    {
        if not_leader {
            BlockError::SignBlockNotLeader
        } else {
            BlockError::Recoverable(detail)
        }
    }

    /// The error for a beacon node that failed at `step`: before the block
    /// is signed another attempt is safe, after it none is.
    pub fn node_failure(step: NodeStep, detail: String) -> (error: BlockError)
        ensures
            error == match step {
                NodeStep::Fetch => BlockError::Recoverable(detail),
                NodeStep::Post => BlockError::Irrecoverable(detail),
            },
    {
        match step {
            NodeStep::Fetch => BlockError::Recoverable(detail),
            NodeStep::Post => BlockError::Irrecoverable(detail),
        }
    }

    /// How loudly the failure is reported.
    pub fn severity(&self) -> (severity: Severity)
        ensures
            severity == match self {
                BlockError::RandaoNotLeader => Severity::Error,
                BlockError::SignBlockNotLeader => Severity::Info,
                _ => Severity::Critical,
            },
    {
        match self {
            BlockError::RandaoNotLeader => Severity::Error,
            BlockError::SignBlockNotLeader => Severity::Info,
            _ => Severity::Critical,
        }
    }
}

/// Checks that the block that a beacon node produced is that of the proposer
/// it was asked for.
pub fn check_proposer(expected: Option<u64>, produced: u64) -> (checked: Result<(), BlockError>)
    ensures
        checked is Ok <==> expected == Some(produced),
        checked matches Err(error) ==> error matches BlockError::Recoverable(message) && message@
            == "Proposer index does not match block proposer. Beacon chain re-orged"@,
{
    match expected {
        Some(index) if index == produced => Ok(()),
        _ => Err(
            BlockError::Recoverable(
                "Proposer index does not match block proposer. Beacon chain re-orged".to_owned(),
            ),
        ),
    }
}

/// The graffiti of a block: that of the graffiti file, else that which the
/// validator store holds, else that of the service.
pub fn choose_graffiti(
    from_file: Option<Graffiti>,
    from_store: Option<Graffiti>,
    fallback: Option<Graffiti>,
) -> (graffiti: Option<Graffiti>)
    ensures
        graffiti == if from_file is Some {
            from_file
        } else if from_store is Some {
            from_store
        } else {
            fallback
        },
{
    if from_file.is_some() {
        from_file
    } else if from_store.is_some() {
        from_store
    } else {
        fallback
    }
}

/// The slot at which the merge takes effect.
pub fn merge_slot(bellatrix_fork_epoch: Option<Epoch>, slots_per_epoch: u64) -> (slot: Slot)
    ensures
        slot == merge_slot_of(bellatrix_fork_epoch, slots_per_epoch),
{
    let epoch = match bellatrix_fork_epoch {
        Some(epoch) => epoch,
        None => u64::MAX,
    };
    match epoch.checked_mul(slots_per_epoch) {
        Some(slot) => slot,
        None => u64::MAX,
    }
}

/// Whether a failed attempt with a blinded block is followed by one with a
/// full block: only where nothing was signed.
pub fn retries_with_full_block(attempt: &Result<(), BlockError>) -> (retry: bool)
    ensures
        retry == (attempt matches Err(BlockError::Recoverable(_))),
{
    match attempt {
        Err(BlockError::Recoverable(_)) => true,
        _ => false,
    }
}

/// Notification from the duties service that a block is due.
#[derive(Debug)]
pub struct BlockServiceNotification {
    pub slot: Slot,
    pub block_proposers: Vec<PublicKeyBytes>,
}

/// One publication to attempt.
#[derive(Clone, Copy, Debug)]
pub struct Attempt {
    pub validator: PublicKeyBytes,
    /// The kind of block to try first.
    pub block_type: BlockType,
}

/// What an update does.
#[derive(Debug)]
pub enum UpdatePlan {
    /// The clock does not tell the slot: the update fails.
    ClockUnreadable,
    /// The notification is for another slot than the present one: nothing is produced.
    ExpiredSlot,
    /// The present slot is the genesis slot: nothing is produced.
    GenesisSlot,
    /// One publication for each proposer, in the order of the notification.
    Produce(Vec<Attempt>),
}

/// Builds a `BlockService` out of its parts: a validator store, a slot
/// clock, the beacon nodes, a runtime context and, if there is one, a
/// graffiti file.
pub struct BlockServiceBuilder<V, T, B, C, F> {
    validator_store: Option<V>,
    slot_clock: Option<T>,
    beacon_nodes: Option<B>,
    context: Option<C>,
    graffiti: Option<Graffiti>,
    graffiti_file: Option<F>,
    private_tx_proposals: bool,
}

/// The parts of a block service.
pub struct Inner<V, T, B, C, F> {
    pub validator_store: V,
    pub slot_clock: T,
    pub beacon_nodes: B,
    pub context: C,
    pub graffiti: Option<Graffiti>,
    pub graffiti_file: Option<F>,
    pub private_tx_proposals: bool,
}

/// Produces and publishes a block for each local proposer of the present slot.
pub struct BlockService<V, T, B, C, F> {
    inner: Arc<Inner<V, T, B, C, F>>,
}

/// Which part is missing first, in the order in which `build` asks for them.
pub open spec fn missing_part(
    validator_store: bool,
    slot_clock: bool,
    beacon_nodes: bool,
    context: bool,
) -> Option<Seq<char>> {
    if !validator_store {
        Some("Cannot build BlockService without validator_store"@)
    } else if !slot_clock {
        Some("Cannot build BlockService without slot_clock"@)
    } else if !beacon_nodes {
        Some("Cannot build BlockService without beacon_node"@)
    } else if !context {
        Some("Cannot build BlockService without runtime_context"@)
    } else {
        None
    }
}

impl<V, T, B, C, F> BlockServiceBuilder<V, T, B, C, F> {
    /// The validator store given so far.
    pub closed spec fn given_validator_store(&self) -> Option<V> {
        self.validator_store
    }

    /// The slot clock given so far.
    pub closed spec fn given_slot_clock(&self) -> Option<T> {
        self.slot_clock
    }

    /// The beacon nodes given so far.
    pub closed spec fn given_beacon_nodes(&self) -> Option<B> {
        self.beacon_nodes
    }

    /// The runtime context given so far.
    pub closed spec fn given_context(&self) -> Option<C> {
        self.context
    }

    /// The graffiti given so far.
    pub closed spec fn given_graffiti(&self) -> Option<Graffiti> {
        self.graffiti
    }

    /// The graffiti file given so far.
    pub closed spec fn given_graffiti_file(&self) -> Option<F> {
        self.graffiti_file
    }

    /// Whether blinded blocks are tried first.
    pub closed spec fn given_private_tx_proposals(&self) -> bool {
        self.private_tx_proposals
    }

    /// Whether `other` holds the same parts, but perhaps for one that the caller names.
    pub open spec fn same_but(
        &self,
        other: &Self,
        validator_store: bool,
        slot_clock: bool,
        beacon_nodes: bool,
        context: bool,
        graffiti: bool,
        graffiti_file: bool,
        private_tx_proposals: bool,
    ) -> bool {
        &&& validator_store || self.given_validator_store() == other.given_validator_store()
        &&& slot_clock || self.given_slot_clock() == other.given_slot_clock()
        &&& beacon_nodes || self.given_beacon_nodes() == other.given_beacon_nodes()
        &&& context || self.given_context() == other.given_context()
        &&& graffiti || self.given_graffiti() == other.given_graffiti()
        &&& graffiti_file || self.given_graffiti_file() == other.given_graffiti_file()
        &&& private_tx_proposals || self.given_private_tx_proposals()
            == other.given_private_tx_proposals()
    }

    /// A builder with no part given and blinded blocks switched off.
    pub fn new() -> (builder: Self)
        ensures
            builder.given_validator_store() is None,
            builder.given_slot_clock() is None,
            builder.given_beacon_nodes() is None,
            builder.given_context() is None,
            builder.given_graffiti() is None,
            builder.given_graffiti_file() is None,
            !builder.given_private_tx_proposals(),
    {
        BlockServiceBuilder {
            validator_store: None,
            slot_clock: None,
            beacon_nodes: None,
            context: None,
            graffiti: None,
            graffiti_file: None,
            private_tx_proposals: false,
        }
    }

    /// Gives the validator store.
    pub fn validator_store(self, store: V) -> (builder: Self)
        ensures
            builder.given_validator_store() == Some(store),
            builder.same_but(&self, true, false, false, false, false, false, false),
    {
        let mut builder = self;
        builder.validator_store = Some(store);
        builder
    }

    /// Gives the slot clock.
    pub fn slot_clock(self, slot_clock: T) -> (builder: Self)
        ensures
            builder.given_slot_clock() == Some(slot_clock),
            builder.same_but(&self, false, true, false, false, false, false, false),
    {
        let mut builder = self;
        builder.slot_clock = Some(slot_clock);
        builder
    }

    /// Gives the beacon nodes.
    pub fn beacon_nodes(self, beacon_nodes: B) -> (builder: Self)
        ensures
            builder.given_beacon_nodes() == Some(beacon_nodes),
            builder.same_but(&self, false, false, true, false, false, false, false),
    {
        let mut builder = self;
        builder.beacon_nodes = Some(beacon_nodes);
        builder
    }

    /// Gives the runtime context.
    pub fn runtime_context(self, context: C) -> (builder: Self)
        ensures
            builder.given_context() == Some(context),
            builder.same_but(&self, false, false, false, true, false, false, false),
    {
        let mut builder = self;
        builder.context = Some(context);
        builder
    }

    /// Sets the graffiti of the service, or takes it away.
    pub fn graffiti(self, graffiti: Option<Graffiti>) -> (builder: Self)
        ensures
            builder.given_graffiti() == graffiti,
            builder.same_but(&self, false, false, false, false, true, false, false),
    {
        let mut builder = self;
        builder.graffiti = graffiti;
        builder
    }

    /// Sets the graffiti file, or takes it away.
    pub fn graffiti_file(self, graffiti_file: Option<F>) -> (builder: Self)
        ensures
            builder.given_graffiti_file() == graffiti_file,
            builder.same_but(&self, false, false, false, false, false, true, false),
    {
        let mut builder = self;
        builder.graffiti_file = graffiti_file;
        builder
    }

    /// Switches on or off that blinded blocks are tried first.
    pub fn private_tx_proposals(self, private_tx_proposals: bool) -> (builder: Self)
        ensures
            builder.given_private_tx_proposals() == private_tx_proposals,
            builder.same_but(&self, false, false, false, false, false, false, true),
    {
        let mut builder = self;
        builder.private_tx_proposals = private_tx_proposals;
        builder
    }

    /// The service made of the parts given, or the name of the first part
    /// that is missing.
    pub fn build(self) -> (built: Result<BlockService<V, T, B, C, F>, String>)
        ensures
            match missing_part(
                self.given_validator_store() is Some,
                self.given_slot_clock() is Some,
                self.given_beacon_nodes() is Some,
                self.given_context() is Some,
            ) {
                Some(message) => built matches Err(text) && text@ == message,
                None => {
                    &&& built matches Ok(service)
                    &&& service.parts().validator_store == self.given_validator_store().unwrap()
                    &&& service.parts().slot_clock == self.given_slot_clock().unwrap()
                    &&& service.parts().beacon_nodes == self.given_beacon_nodes().unwrap()
                    &&& service.parts().context == self.given_context().unwrap()
                    &&& service.parts().graffiti == self.given_graffiti()
                    &&& service.parts().graffiti_file == self.given_graffiti_file()
                    &&& service.parts().private_tx_proposals == self.given_private_tx_proposals()
                },
            },
    {
        let validator_store = match self.validator_store {
            Some(part) => part,
            None => {
                return Err("Cannot build BlockService without validator_store".to_owned());
            },
        };
        let slot_clock = match self.slot_clock {
            Some(part) => part,
            None => {
                return Err("Cannot build BlockService without slot_clock".to_owned());
            },
        };
        let beacon_nodes = match self.beacon_nodes {
            Some(part) => part,
            None => {
                return Err("Cannot build BlockService without beacon_node".to_owned());
            },
        };
        let context = match self.context {
            Some(part) => part,
            None => {
                return Err("Cannot build BlockService without runtime_context".to_owned());
            },
        };
        Ok(
            BlockService {
                inner: Arc::new(
                    Inner {
                        validator_store,
                        slot_clock,
                        beacon_nodes,
                        context,
                        graffiti: self.graffiti,
                        graffiti_file: self.graffiti_file,
                        private_tx_proposals: self.private_tx_proposals,
                    },
                ),
            },
        )
    }
}

impl<V, T, B, C, F> Clone for BlockService<V, T, B, C, F> {
    fn clone(&self) -> (copy: Self)
        ensures
            copy.parts() == self.parts(),
    {
        BlockService { inner: self.inner.clone() }
    }
}

impl<V, T, B, C, F> BlockService<V, T, B, C, F> {
    /// The parts of the service.
    pub closed spec fn parts(&self) -> Inner<V, T, B, C, F> {
        *self.inner
    }

    /// The parts of the service.
    pub fn inner(&self) -> (inner: &Inner<V, T, B, C, F>)
        ensures
            *inner == self.parts(),
    {
        &*self.inner
    }

    /// What the update for `notification` does, given what the clock says
    /// (`now`), the genesis slot and the slot of the merge.
    pub fn plan_update(
        &self,
        notification: &BlockServiceNotification,
        now: Option<Slot>,
        genesis_slot: Slot,
        merge_slot: Slot,
    ) -> (plan: UpdatePlan)
        ensures
            match now {
                None => plan is ClockUnreadable,
                Some(slot) => if notification.slot != slot {
                    plan is ExpiredSlot
                } else if slot == genesis_slot {
                    plan is GenesisSlot
                } else {
                    &&& plan matches UpdatePlan::Produce(attempts)
                    &&& attempts@.len() == notification.block_proposers@.len()
                    &&& forall|i: int|
                        0 <= i < attempts@.len() ==> {
                            &&& (#[trigger] attempts@[i]).validator
                                == notification.block_proposers@[i]
                            &&& attempts@[i].block_type == first_block_type(
                                self.parts().private_tx_proposals,
                                slot,
                                merge_slot,
                            )
                        }
                },
            },
    {
        let slot = match now {
            Some(slot) => slot,
            None => {
                return UpdatePlan::ClockUnreadable;
            },
        };
        if notification.slot != slot {
            return UpdatePlan::ExpiredSlot;
        }
        if slot == genesis_slot {
            return UpdatePlan::GenesisSlot;
        }
        let block_type = if self.inner.private_tx_proposals && slot >= merge_slot {
            BlockType::Blinded
        } else {
            BlockType::Full
        };
        let n = notification.block_proposers.len();
        let mut attempts: Vec<Attempt> = Vec::new();
        let mut i: usize = 0;
        while i < n
            invariant
                i <= n == notification.block_proposers@.len(),
                attempts@.len() == i,
                forall|j: int|
                    0 <= j < i ==> {
                        &&& (#[trigger] attempts@[j]).validator == notification.block_proposers@[j]
                        &&& attempts@[j].block_type == block_type
                    },
            decreases n - i,
        {
            attempts.push(Attempt { validator: notification.block_proposers[i], block_type });
            i += 1;
        }
        UpdatePlan::Produce(attempts)
    }
}

} // verus!
