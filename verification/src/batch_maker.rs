//! Gathers client transactions into batches.
//!
//! A batch is sealed when the bytes gathered reach the size threshold, or when
//! the oldest transaction gathered has waited for the maximum delay. A sealed
//! batch is serialized once; the same bytes are broadcast to the peers and
//! handed on for acknowledgement. The clock is the caller's: every call is
//! told the present time in milliseconds.

use crate::config::Address;
use crate::crypto::PublicKey;
use crate::messages::{
    encode_message, serialize_batch, transactions_view, Batch, MessageView, SerializedBatchMessage,
    Transaction,
};
use vstd::prelude::*;

verus! {

/// Why a batch was sealed.
#[derive(Clone, Copy, Debug, PartialEq, Eq, Structural)]
pub enum SealReason {
    /// The bytes gathered reached the size threshold.
    Size,
    /// The oldest transaction gathered waited for the maximum delay.
    Timeout,
}

/// What the caller does with its one-shot timer after a step.
#[derive(Clone, Copy, Debug, PartialEq, Eq, Structural)]
pub enum TimerCommand {
    /// Leave the timer as it is.
    Keep,
    /// Start the timer: it fires after this many milliseconds.
    Arm(u64),
    /// Stop the timer.
    Disarm,
}

/// A sealed batch in its wire form.
#[derive(Debug)]
pub struct Sealed {
    /// The bytes to broadcast, to match acknowledgements against, and to store.
    pub batch: SerializedBatchMessage,
    pub reason: SealReason,
}

/// The outcome of one step of the batch maker.
#[derive(Debug)]
pub struct BatchMakerStep {
    /// The batch sealed by this step, if any.
    pub sealed: Option<Sealed>,
    pub timer: TimerCommand,
}

/// The number of bytes in a list of transactions.
pub open spec fn total_bytes(transactions: Seq<Seq<u8>>) -> nat
    decreases transactions.len(),
{
    if transactions.len() == 0 {
        0
    } else {
        total_bytes(transactions.drop_last()) + transactions.last().len()
    }
}

/// Whether a timer armed at `armed_at` has run for `delay` milliseconds at `now`.
pub open spec fn timer_due(armed_at: Option<u64>, now: u64, delay: u64) -> bool {
    armed_at matches Some(since) && now - since >= delay
}

/// Whether the transactions gathered are sealed now, and why. The size
/// threshold is looked at first; an empty buffer is never sealed.
pub open spec fn seal_reason(
    gathered: Seq<Seq<u8>>,
    batch_size: usize,
    armed_at: Option<u64>,
    now: u64,
    delay: u64,
) -> Option<SealReason> {
    if gathered.len() == 0 {
        None
    } else if total_bytes(gathered) >= batch_size {
        Some(SealReason::Size)
    } else if timer_due(armed_at, now, delay) {
        Some(SealReason::Timeout)
    } else {
        None
    }
}

/// The timer follows the buffer: it starts when the buffer gets its first
/// transaction and stops when the buffer is emptied.
pub open spec fn timer_command(was_empty: bool, is_empty: bool, delay: u64) -> TimerCommand {
    if was_empty && !is_empty {
        TimerCommand::Arm(delay)
    } else if !was_empty && is_empty {
        TimerCommand::Disarm
    } else {
        TimerCommand::Keep
    }
}

/// One more transaction adds its length to the total.
pub proof fn lemma_total_bytes_push(transactions: Seq<Seq<u8>>, transaction: Seq<u8>)
    ensures
        total_bytes(transactions.push(transaction)) == total_bytes(transactions)
            + transaction.len(),
{
    assert(transactions.push(transaction).drop_last() =~= transactions);
}

/// A buffer that has reached the size threshold is sealed at once, for that
/// reason, whatever the timer says.
pub proof fn lemma_full_buffer_is_sealed(
    gathered: Seq<Seq<u8>>,
    batch_size: usize,
    armed_at: Option<u64>,
    now: u64,
    delay: u64,
)
    requires
        gathered.len() > 0,
        total_bytes(gathered) >= batch_size,
    ensures
        seal_reason(gathered, batch_size, armed_at, now, delay) == Some(SealReason::Size),
{
}

/// A buffer that is not empty and whose first transaction has waited for the
/// maximum delay is sealed at once.
pub proof fn lemma_old_buffer_is_sealed(
    gathered: Seq<Seq<u8>>,
    batch_size: usize,
    since: u64,
    now: u64,
    delay: u64,
)
    requires
        gathered.len() > 0,
        now - since >= delay,
    ensures
        seal_reason(gathered, batch_size, Some(since), now, delay) is Some,
{
}

/// With nothing gathered nothing is sealed and no timer is started.
pub proof fn lemma_empty_buffer_is_idle(
    batch_size: usize,
    armed_at: Option<u64>,
    now: u64,
    delay: u64,
)
    ensures
        seal_reason(Seq::empty(), batch_size, armed_at, now, delay) is None,
        timer_command(true, true, delay) == TimerCommand::Keep,
{
}

/// Assembles client transactions into batches.
#[derive(Debug)]
pub struct BatchMaker {
    batch_size: usize,
    max_batch_delay: u64,
    mempool_addresses: Vec<(PublicKey, Address)>,
    current_batch: Batch,
    current_batch_size: usize,
    armed_at: Option<u64>,
}

impl BatchMaker {
    /// The size in bytes at which a batch is sealed.
    pub closed spec fn batch_size(&self) -> usize {
        self.batch_size
    }

    /// The delay in milliseconds after which a batch is sealed.
    pub closed spec fn max_batch_delay(&self) -> u64 {
        self.max_batch_delay
    }

    /// The peers to which sealed batches are broadcast.
    pub closed spec fn peers(&self) -> Seq<(PublicKey, Address)> {
        self.mempool_addresses@
    }

    /// The transactions gathered and not yet sealed, in arrival order.
    pub closed spec fn gathered(&self) -> Seq<Seq<u8>> {
        transactions_view(self.current_batch@)
    }

    /// When the first of the gathered transactions arrived, which is when the
    /// timer was started.
    pub closed spec fn armed_at(&self) -> Option<u64> {
        self.armed_at
    }

    /// The byte counter is exact, what is gathered is below the size
    /// threshold, and the timer runs exactly while something is gathered.
    pub closed spec fn wf(&self) -> bool {
        &&& self.current_batch_size == total_bytes(self.gathered())
        &&& self.gathered().len() > 0 ==> total_bytes(self.gathered()) < self.batch_size
        &&& self.armed_at is Some <==> self.gathered().len() > 0
    }

    /// What `wf` says of the gathered transactions and of the timer.
    pub proof fn lemma_wf(&self)
        requires
            self.wf(),
        ensures
            self.gathered().len() > 0 ==> total_bytes(self.gathered()) < self.batch_size(),
            self.armed_at() is Some <==> self.gathered().len() > 0,
    {
    }

    /// A batch maker with nothing gathered and no timer running.
    pub fn new(
        batch_size: usize,
        max_batch_delay: u64,
        mempool_addresses: Vec<(PublicKey, Address)>,
    ) -> (maker: BatchMaker)
        ensures
            maker.wf(),
            maker.batch_size() == batch_size,
            maker.max_batch_delay() == max_batch_delay,
            maker.peers() == mempool_addresses@,
            maker.gathered() == Seq::<Seq<u8>>::empty(),
            maker.armed_at() is None,
    {
        let maker = BatchMaker {
            batch_size,
            max_batch_delay,
            mempool_addresses,
            current_batch: Vec::new(),
            current_batch_size: 0,
            armed_at: None,
        };
        assert(maker.gathered() =~= Seq::<Seq<u8>>::empty());
        maker
    }

    /// The peers to which every sealed batch is broadcast.
    pub fn mempool_addresses(&self) -> (peers: &Vec<(PublicKey, Address)>)
        ensures
            peers@ == self.peers(),
    {
        &self.mempool_addresses
    }

    /// Whether nothing is gathered.
    pub fn is_empty(&self) -> (empty: bool)
        ensures
            empty == (self.gathered().len() == 0),
    {
        self.current_batch.len() == 0
    }

    /// One wake-up at time `now`: takes in the transaction that arrived, if
    /// one did, then seals what is gathered if the size threshold is reached
    /// or else if the timer has run out.
    pub fn poll(&mut self, incoming: Option<Transaction>, now: u64) -> (step: BatchMakerStep)
        requires
            old(self).wf(),
        ensures
            final(self).wf(),
            final(self).batch_size() == old(self).batch_size(),
            final(self).max_batch_delay() == old(self).max_batch_delay(),
            final(self).peers() == old(self).peers(),
            ({
                let before = old(self).gathered();
                let gathered = match incoming {
                    Some(transaction) => before.push(transaction@),
                    None => before,
                };
                let armed_at = if before.len() == 0 && incoming is Some {
                    Some(now)
                } else {
                    old(self).armed_at()
                };
                let reason = seal_reason(
                    gathered,
                    old(self).batch_size(),
                    armed_at,
                    now,
                    old(self).max_batch_delay(),
                );
                &&& match reason {
                    Some(reason) => {
                        &&& step.sealed matches Some(sealed)
                        &&& sealed.reason == reason
                        &&& sealed.batch@ == encode_message(MessageView::Batch(gathered))
                        &&& final(self).gathered() == Seq::<Seq<u8>>::empty()
                        &&& final(self).armed_at() is None
                    },
                    None => {
                        &&& step.sealed is None
                        &&& final(self).gathered() == gathered
                        &&& final(self).armed_at() == armed_at
                    },
                }
                &&& step.timer == timer_command(
                    before.len() == 0,
                    final(self).gathered().len() == 0,
                    old(self).max_batch_delay(),
                )
            }),
    {
        let was_empty = self.current_batch.len() == 0;
        let ghost before = self.gathered();
        let mut full = false;
        match incoming {
            Some(transaction) => {
                proof {
                    lemma_total_bytes_push(before, transaction@);
                    assert(transactions_view(self.current_batch@.push(transaction)) =~= before.push(
                        transaction@,
                    ));
                }
                match self.current_batch_size.checked_add(transaction.len()) {
                    Some(sum) => {
                        self.current_batch_size = sum;
                        full = sum >= self.batch_size;
                    },
                    None => {
                        full = true;
                    },
                }
                self.current_batch.push(transaction);
                if was_empty {
                    self.armed_at = Some(now);
                }
            },
            None => {},
        }
        let timed_out = match self.armed_at {
            Some(since) => now >= since && now - since >= self.max_batch_delay,
            None => false,
        };
        let nothing = self.current_batch.len() == 0;
        let reason = if nothing {
            None
        } else if full {
            Some(SealReason::Size)
        } else if timed_out {
            Some(SealReason::Timeout)
        } else {
            None
        };
        let sealed = match reason {
            Some(reason) => {
                let batch = serialize_batch(&self.current_batch);
                self.current_batch = Vec::new();
                self.current_batch_size = 0;
                self.armed_at = None;
                assert(self.gathered() =~= Seq::<Seq<u8>>::empty());
                Some(Sealed { batch, reason })
            },
            None => None,
        };
        let timer = if was_empty && !nothing && sealed.is_none() {
            TimerCommand::Arm(self.max_batch_delay)
        } else if !was_empty && sealed.is_some() {
            TimerCommand::Disarm
        } else {
            TimerCommand::Keep
        };
        BatchMakerStep { sealed, timer }
    }

    /// A transaction arrived at time `now`.
    pub fn on_transaction(&mut self, transaction: Transaction, now: u64) -> (step: BatchMakerStep)
        requires
            old(self).wf(),
        ensures
            final(self).wf(),
            final(self).batch_size() == old(self).batch_size(),
            final(self).max_batch_delay() == old(self).max_batch_delay(),
            final(self).peers() == old(self).peers(),
            ({
                let gathered = old(self).gathered().push(transaction@);
                let armed_at = if old(self).gathered().len() == 0 {
                    Some(now)
                } else {
                    old(self).armed_at()
                };
                let reason = seal_reason(
                    gathered,
                    old(self).batch_size(),
                    armed_at,
                    now,
                    old(self).max_batch_delay(),
                );
                &&& match reason {
                    Some(reason) => {
                        &&& step.sealed matches Some(sealed)
                        &&& sealed.reason == reason
                        &&& sealed.batch@ == encode_message(MessageView::Batch(gathered))
                        &&& final(self).gathered() == Seq::<Seq<u8>>::empty()
                        &&& final(self).armed_at() is None
                    },
                    None => {
                        &&& step.sealed is None
                        &&& final(self).gathered() == gathered
                        &&& final(self).armed_at() == armed_at
                    },
                }
                &&& step.timer == timer_command(
                    old(self).gathered().len() == 0,
                    final(self).gathered().len() == 0,
                    old(self).max_batch_delay(),
                )
            }),
    {
        self.poll(Some(transaction), now)
    }

    /// The timer fired, or the caller looks at the clock, at time `now`.
    pub fn on_timer(&mut self, now: u64) -> (step: BatchMakerStep)
        requires
            old(self).wf(),
        ensures
            final(self).wf(),
            final(self).batch_size() == old(self).batch_size(),
            final(self).max_batch_delay() == old(self).max_batch_delay(),
            final(self).peers() == old(self).peers(),
            ({
                let gathered = old(self).gathered();
                let due = gathered.len() > 0 && timer_due(
                    old(self).armed_at(),
                    now,
                    old(self).max_batch_delay(),
                );
                if due {
                    &&& step.sealed matches Some(sealed)
                    &&& sealed.reason == SealReason::Timeout
                    &&& sealed.batch@ == encode_message(MessageView::Batch(gathered))
                    &&& final(self).gathered() == Seq::<Seq<u8>>::empty()
                    &&& final(self).armed_at() is None
                    &&& step.timer == TimerCommand::Disarm
                } else {
                    &&& step.sealed is None
                    &&& final(self).gathered() == gathered
                    &&& final(self).armed_at() == old(self).armed_at()
                    &&& step.timer == TimerCommand::Keep
                }
            }),
    {
        self.poll(None, now)
    }
}

} // verus!
