use mempool::config::{Address, Authority, Committee};
use mempool::crypto::{Digest, PublicKey};
use mempool::helper::Helper;
use mempool::processor::Processor;
use std::collections::HashMap;

fn key(n: u8) -> PublicKey {
    PublicKey([n; 32])
}

fn address(n: u8) -> Address {
    Address { v6: false, ip: 0x0a00_0000 + n as u128, port: 4000 }
}

fn committee(n: u8) -> Committee {
    let list = (0..n).map(|i| Authority { name: key(i), stake: 1, address: address(i) }).collect();
    Committee::new(list).unwrap()
}

#[test]
fn prepare_stores_the_bytes_under_their_digest() {
    let batch = vec![1u8, 2, 3, 4];
    let write = Processor::prepare(batch.clone());
    assert_eq!(write.key, Digest::of(&batch));
    assert_eq!(write.value, batch);
}

#[test]
fn complete_announces_only_what_was_stored() {
    let digest = Digest([8; 32]);
    assert_eq!(Processor::complete(digest, true), Some(digest));
    assert_eq!(Processor::complete(digest, false), None);
}

#[test]
fn announced_digest_reads_back_the_batch() {
    let mut store: HashMap<Digest, Vec<u8>> = HashMap::new();
    let batch = vec![5u8; 300];
    let write = Processor::prepare(batch.clone());
    let key = write.key;
    store.insert(write.key, write.value);
    let announced = Processor::complete(key, true).unwrap();
    assert_eq!(store.get(&announced), Some(&batch));
    assert_eq!(Digest::of(&store[&announced]), announced);
}

#[test]
fn failing_store_announces_nothing() {
    let mut announced = Vec::new();
    for i in 0u8..5 {
        let write = Processor::prepare(vec![i; 10]);
        if let Some(digest) = Processor::complete(write.key, false) {
            announced.push(digest);
        }
    }
    assert!(announced.is_empty());
}

#[test]
fn storing_twice_gives_the_same_write() {
    let first = Processor::prepare(vec![1, 1, 1]);
    let second = Processor::prepare(vec![1, 1, 1]);
    assert_eq!(first.key, second.key);
    assert_eq!(first.value, second.value);
}

#[test]
fn back_fill_sends_what_is_stored() {
    let helper = Helper::new(committee(4));
    let b1 = vec![1u8; 20];
    let d1 = Digest::of(&b1);
    let d2 = Digest([0; 32]);
    let mut store: HashMap<Digest, Vec<u8>> = HashMap::new();
    store.insert(d1, b1.clone());
    let found: Vec<Option<Vec<u8>>> = [d1, d2].iter().map(|d| store.get(d).cloned()).collect();
    let replies = helper.serve(&key(2), found);
    assert_eq!(replies.len(), 1);
    assert_eq!(replies[0].address, address(2));
    assert_eq!(replies[0].batch, b1);
}

#[test]
fn back_fill_keeps_the_order_of_the_request() {
    let helper = Helper::new(committee(4));
    let found = vec![Some(vec![1u8]), None, Some(vec![2u8, 2]), Some(vec![]), None];
    let replies = helper.serve(&key(1), found);
    let batches: Vec<Vec<u8>> = replies.iter().map(|reply| reply.batch.clone()).collect();
    assert_eq!(batches, vec![vec![1u8], vec![2, 2], vec![]]);
    assert!(replies.iter().all(|reply| reply.address == address(1)));
}

#[test]
fn back_fill_ignores_a_stranger() {
    let helper = Helper::new(committee(4));
    assert_eq!(helper.resolve(&key(9)), None);
    assert!(helper.serve(&key(9), vec![Some(vec![1u8])]).is_empty());
}

#[test]
fn back_fill_of_unknown_digests_sends_nothing() {
    let helper = Helper::new(committee(4));
    assert_eq!(helper.resolve(&key(3)), Some(address(3)));
    assert!(helper.serve(&key(3), vec![None, None]).is_empty());
    assert!(helper.serve(&key(3), Vec::new()).is_empty());
    assert!(Helper::replies(address(3), vec![None]).is_empty());
}
