//! Core of a Byzantine-fault-tolerant transaction mempool.
//!
//! Client transactions are gathered into batches, each batch is replicated to a
//! quorum of peers, stored under the hash of its wire form, and announced to
//! consensus by that hash alone. Every component is a deterministic state
//! machine over plain values: the caller performs the network, storage and
//! timer work and hands the outcomes back as events.

pub mod batch_maker;
pub mod block_service;
pub mod config;
pub mod crypto;
pub mod endian;
pub mod error;
pub mod helper;
pub mod mempool;
pub mod messages;
pub mod processor;
pub mod quorum_waiter;
pub mod synchronizer;
