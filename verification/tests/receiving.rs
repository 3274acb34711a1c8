use mempool::batch_maker::SealReason;
use mempool::config::{Address, Authority, Committee, Parameters};
use mempool::crypto::{Digest, PublicKey};
use mempool::mempool::{
    ack, Dispatched, Mempool, MempoolReceiverHandler, TxReceiverHandler, CHANNEL_CAPACITY,
};
use mempool::messages::{
    serialize_batch, serialize_batch_request, ConsensusMempoolMessage, DecodeError,
};
use mempool::processor::Processor;
use mempool::quorum_waiter::QuorumStep;
use mempool::synchronizer::StoreLookup;
use std::collections::HashMap;

fn key(n: u8) -> PublicKey {
    PublicKey([n; 32])
}

fn address(n: u8) -> Address {
    Address { v6: false, ip: 0x7f00_0001, port: 6000 + n as u16 }
}

fn committee(n: u8) -> Committee {
    let list = (0..n).map(|i| Authority { name: key(i), stake: 1, address: address(i) }).collect();
    Committee::new(list).unwrap()
}

fn parameters() -> Parameters {
    Parameters {
        batch_size: 1000,
        max_batch_delay: 50,
        gc_depth: 50,
        sync_retry_delay: 5_000,
        sync_retry_nodes: 3,
    }
}

fn node(n: u8) -> Mempool {
    Mempool::new(key(n), committee(4), parameters(), n as u64).unwrap()
}

#[test]
fn channel_capacity_is_one_thousand() {
    assert_eq!(CHANNEL_CAPACITY, 1_000);
}

#[test]
fn ack_is_three_letters() {
    assert_eq!(ack(), b"Ack".to_vec());
}

#[test]
fn client_message_is_one_transaction() {
    assert_eq!(TxReceiverHandler::dispatch(&[1, 2, 3]), vec![1u8, 2, 3]);
    assert_eq!(TxReceiverHandler::dispatch(&[]), Vec::<u8>::new());
}

#[test]
fn peer_batch_is_acked_stored_and_announced() {
    let frame = serialize_batch(&vec![vec![1u8; 10], vec![2u8; 20]]);
    let mut store: HashMap<Digest, Vec<u8>> = HashMap::new();
    let mut consensus: Vec<Digest> = Vec::new();
    match MempoolReceiverHandler::dispatch(&frame) {
        Dispatched::Batch { ack, batch } => {
            assert_eq!(ack, b"Ack".to_vec());
            assert_eq!(batch, frame);
            let write = Processor::prepare(batch);
            let written = write.key;
            store.insert(write.key, write.value);
            if let Some(digest) = Processor::complete(written, true) {
                consensus.push(digest);
            }
        },
        other => panic!("unexpected {:?}", other),
    }
    assert_eq!(consensus, vec![Digest::of(&frame)]);
    assert_eq!(store.get(&Digest::of(&frame)), Some(&frame));
}

#[test]
fn peer_batch_goes_on_as_it_came() {
    let mut frame = serialize_batch(&vec![vec![1u8; 10]]);
    frame.extend_from_slice(&[9, 9, 9]);
    match MempoolReceiverHandler::dispatch(&frame) {
        Dispatched::Batch { batch, .. } => assert_eq!(batch, frame),
        other => panic!("unexpected {:?}", other),
    }
}

#[test]
fn batch_request_goes_to_the_helper() {
    let digests = vec![Digest([1; 32]), Digest([2; 32])];
    let frame = serialize_batch_request(&digests, &key(3));
    match MempoolReceiverHandler::dispatch(&frame) {
        Dispatched::BatchRequest { ack, missing, requestor } => {
            assert_eq!(ack, b"Ack".to_vec());
            assert_eq!(missing, digests);
            assert_eq!(requestor, key(3));
        },
        other => panic!("unexpected {:?}", other),
    }
}

#[test]
fn malformed_frame_gets_no_ack() {
    assert!(matches!(
        MempoolReceiverHandler::dispatch(&[]),
        Dispatched::Malformed(DecodeError::UnexpectedEnd)
    ));
    assert!(matches!(
        MempoolReceiverHandler::dispatch(&[7, 0, 0, 0, 1, 2, 3]),
        Dispatched::Malformed(DecodeError::UnknownVariant)
    ));
    let frame = serialize_batch(&vec![vec![1u8; 10]]);
    assert!(matches!(
        MempoolReceiverHandler::dispatch(&frame[..frame.len() - 1]),
        Dispatched::Malformed(DecodeError::UnexpectedEnd)
    ));
}

#[test]
fn loopback_batch_has_one_digest() {
    let mut maker = node(0).batch_maker();
    let step = maker.on_transaction(vec![3u8; 1000], 0);
    let sealed = step.sealed.unwrap();
    assert_eq!(sealed.reason, SealReason::Size);
    let local = Processor::prepare(sealed.batch.clone()).key;
    let remote = match MempoolReceiverHandler::dispatch(&sealed.batch) {
        Dispatched::Batch { batch, .. } => Processor::prepare(batch).key,
        other => panic!("unexpected {:?}", other),
    };
    assert_eq!(local, remote);
}

#[test]
fn stranger_has_no_mempool() {
    assert!(Mempool::new(key(9), committee(4), parameters(), 0).is_none());
    assert!(Mempool::new(key(0), committee(0), parameters(), 0).is_none());
    assert!(Mempool::new(key(3), committee(4), parameters(), 0).is_some());
}

#[test]
fn mempool_knows_its_place() {
    let node = node(2);
    assert_eq!(node.validator_id(), 2);
    assert_eq!(node.address(), address(2));
}

#[test]
fn parts_take_the_settings() {
    let node = node(1);
    let maker = node.batch_maker();
    assert!(maker.is_empty());
    assert_eq!(
        maker.mempool_addresses(),
        &vec![(key(0), address(0)), (key(2), address(2)), (key(3), address(3))]
    );
    let synchronizer = node.synchronizer();
    assert_eq!(synchronizer.current_round(), 0);
    assert!(synchronizer.pending_syncs().is_empty());
    assert_eq!(node.helper().resolve(&key(3)), Some(address(3)));
}

#[test]
fn happy_batch_end_to_end() {
    let node = node(0);
    let mut maker = node.batch_maker();
    let waiter = node.quorum_waiter();
    let transactions: Vec<Vec<u8>> = (0u8..10).map(|i| vec![i; 100]).collect();
    let mut broadcasts = Vec::new();
    for (i, transaction) in transactions.iter().enumerate() {
        if let Some(sealed) = maker.on_transaction(transaction.clone(), i as u64).sealed {
            broadcasts.push(sealed.batch);
        }
    }
    assert_eq!(broadcasts.len(), 1);
    let batch = broadcasts.pop().unwrap();
    let peers: Vec<PublicKey> = maker.mempool_addresses().iter().map(|(name, _)| *name).collect();
    let mut store: HashMap<Digest, Vec<u8>> = HashMap::new();
    let mut consensus: Vec<Digest> = Vec::new();
    let mut step = waiter.begin(batch.clone(), peers);
    for peer in [key(1), key(2), key(3)] {
        step = match step {
            QuorumStep::Waiting(wait) => {
                assert!(consensus.is_empty());
                waiter.acknowledge(wait, &peer)
            },
            released => released,
        };
        if let QuorumStep::Released(release) = &step {
            if consensus.is_empty() {
                assert_eq!(release.acked.len(), 2);
                let write = Processor::prepare(release.batch.clone());
                let written = write.key;
                store.insert(write.key, write.value);
                consensus.extend(Processor::complete(written, true));
            }
        }
    }
    assert_eq!(consensus.len(), 1);
    assert_eq!(store.get(&consensus[0]), Some(&serialize_batch(&transactions)));
    assert_eq!(consensus[0], Digest::of(&batch));
}

#[test]
fn consensus_commands_drive_the_synchronizer() {
    let mut synchronizer = node(0).synchronizer();
    let commands = vec![
        ConsensusMempoolMessage::Synchronize(vec![Digest([5; 32])], key(1)),
        ConsensusMempoolMessage::Cleanup(51),
    ];
    let mut requests = 0;
    let mut cancelled = Vec::new();
    for command in commands {
        match command {
            ConsensusMempoolMessage::Synchronize(digests, target) => {
                let checked = digests.into_iter().map(|d| (d, StoreLookup::Absent)).collect();
                if synchronizer.synchronize(checked, &target, 0).request.is_some() {
                    requests += 1;
                }
            },
            ConsensusMempoolMessage::Cleanup(round) => cancelled.extend(synchronizer.cleanup(round)),
        }
    }
    assert_eq!(requests, 1);
    assert_eq!(cancelled, vec![Digest([5; 32])]);
}
