use mempool::config::{Address, Authority, Committee};
use mempool::crypto::PublicKey;
use mempool::quorum_waiter::{QuorumStep, QuorumWait, QuorumWaiter};

fn key(n: u8) -> PublicKey {
    PublicKey([n; 32])
}

fn committee(stakes: &[u32]) -> Committee {
    let list = stakes
        .iter()
        .enumerate()
        .map(|(i, stake)| Authority {
            name: key(i as u8),
            stake: *stake,
            address: Address { v6: false, ip: i as u128, port: 7000 },
        })
        .collect();
    Committee::new(list).unwrap()
}

fn waiter(stakes: &[u32]) -> QuorumWaiter {
    let committee = committee(stakes);
    let own = committee.stake(&key(0));
    QuorumWaiter::new(committee, own)
}

fn peers(n: u8) -> Vec<PublicKey> {
    (1..=n).map(key).collect()
}

fn waiting(step: QuorumStep) -> QuorumWait {
    match step {
        QuorumStep::Waiting(wait) => wait,
        QuorumStep::Released(release) => panic!("released too early: {:?}", release),
    }
}

#[test]
fn four_authorities_release_on_two_acks() {
    let waiter = waiter(&[1, 1, 1, 1]);
    let batch = vec![1u8, 2, 3];
    let wait = waiting(waiter.begin(batch.clone(), peers(3)));
    assert_eq!(wait.batch(), &batch);
    assert_eq!(wait.remaining(), &peers(3));
    assert!(wait.acked().is_empty());
    let wait = waiting(waiter.acknowledge(wait, &key(2)));
    assert_eq!(wait.remaining(), &vec![key(1), key(3)]);
    assert_eq!(wait.acked(), &vec![key(2)]);
    match waiter.acknowledge(wait, &key(1)) {
        QuorumStep::Released(release) => {
            assert_eq!(release.batch, batch);
            assert_eq!(release.acked, vec![key(2), key(1)]);
            assert_eq!(release.cancelled, vec![key(3)]);
        },
        QuorumStep::Waiting(_) => panic!("quorum not seen"),
    }
}

#[test]
fn repeated_ack_counts_once() {
    let waiter = waiter(&[1, 1, 1, 1]);
    let wait = waiting(waiter.begin(vec![0], peers(3)));
    let wait = waiting(waiter.acknowledge(wait, &key(1)));
    let wait = waiting(waiter.acknowledge(wait, &key(1)));
    let wait = waiting(waiter.acknowledge(wait, &key(1)));
    assert_eq!(wait.acked(), &vec![key(1)]);
    assert_eq!(wait.remaining(), &vec![key(2), key(3)]);
}

#[test]
fn peer_listed_twice_counts_once() {
    let waiter = waiter(&[1, 1, 1, 1]);
    let wait = waiting(waiter.begin(vec![0], vec![key(1), key(1), key(2)]));
    let wait = waiting(waiter.acknowledge(wait, &key(1)));
    let wait = waiting(waiter.acknowledge(wait, &key(1)));
    assert_eq!(wait.acked(), &vec![key(1)]);
    assert_eq!(wait.remaining(), &vec![key(1), key(2)]);
}

#[test]
fn ack_of_a_peer_not_asked_is_ignored() {
    let waiter = waiter(&[1, 1, 1, 1]);
    let wait = waiting(waiter.begin(vec![0], vec![key(1), key(2)]));
    let wait = waiting(waiter.acknowledge(wait, &key(3)));
    let wait = waiting(waiter.acknowledge(wait, &key(9)));
    assert!(wait.acked().is_empty());
    assert_eq!(wait.remaining(), &vec![key(1), key(2)]);
}

#[test]
fn stake_weighs_the_acks() {
    let waiter = waiter(&[1, 5, 1, 1]);
    let wait = waiting(waiter.begin(vec![0], peers(3)));
    let wait = waiting(waiter.acknowledge(wait, &key(2)));
    let wait = waiting(waiter.acknowledge(wait, &key(3)));
    match waiter.acknowledge(wait, &key(1)) {
        QuorumStep::Released(release) => {
            assert_eq!(release.acked, vec![key(2), key(3), key(1)]);
            assert!(release.cancelled.is_empty());
        },
        QuorumStep::Waiting(_) => panic!("quorum not seen"),
    }
    let heavy = waiter_with_heavy_peer_first();
    assert!(heavy);
}

fn waiter_with_heavy_peer_first() -> bool {
    let waiter = waiter(&[1, 5, 1, 1]);
    let wait = waiting(waiter.begin(vec![0], peers(3)));
    matches!(waiter.acknowledge(wait, &key(1)), QuorumStep::Released(_))
}

#[test]
fn lone_authority_releases_at_once() {
    let waiter = waiter(&[1]);
    match waiter.begin(vec![4, 5], Vec::new()) {
        QuorumStep::Released(release) => {
            assert_eq!(release.batch, vec![4, 5]);
            assert!(release.acked.is_empty());
            assert!(release.cancelled.is_empty());
        },
        QuorumStep::Waiting(_) => panic!("quorum not seen"),
    }
}

#[test]
fn own_quorum_cancels_every_delivery() {
    let waiter = waiter(&[10, 1, 1]);
    match waiter.begin(vec![1], peers(2)) {
        QuorumStep::Released(release) => assert_eq!(release.cancelled, peers(2)),
        QuorumStep::Waiting(_) => panic!("quorum not seen"),
    }
}

#[test]
fn one_silent_peer_does_not_stall() {
    let waiter = waiter(&[1, 1, 1, 1]);
    let wait = waiting(waiter.begin(vec![0], peers(3)));
    let wait = waiting(waiter.acknowledge(wait, &key(1)));
    assert!(matches!(waiter.acknowledge(wait, &key(3)), QuorumStep::Released(_)));
}

#[test]
fn seven_authorities_release_on_four_acks() {
    let waiter = waiter(&[1; 7]);
    let mut wait = waiting(waiter.begin(vec![0], peers(6)));
    for n in [6u8, 4, 2] {
        wait = waiting(waiter.acknowledge(wait, &key(n)));
    }
    match waiter.acknowledge(wait, &key(5)) {
        QuorumStep::Released(release) => {
            assert_eq!(release.acked, vec![key(6), key(4), key(2), key(5)]);
            assert_eq!(release.cancelled, vec![key(1), key(3)]);
        },
        QuorumStep::Waiting(_) => panic!("quorum not seen"),
    }
}

#[test]
fn too_few_peers_stall_the_wait() {
    let waiter = waiter(&[1, 1, 1, 1]);
    let wait = waiting(waiter.begin(vec![0], vec![key(1)]));
    assert!(!wait.is_stalled());
    let wait = waiting(waiter.acknowledge(wait, &key(1)));
    assert!(wait.is_stalled());
    assert_eq!(wait.batch(), &vec![0u8]);
}

#[test]
fn stranger_adds_no_stake() {
    let waiter = waiter(&[1, 1, 1, 1]);
    let wait = waiting(waiter.begin(vec![0], vec![key(8), key(9), key(1)]));
    let wait = waiting(waiter.acknowledge(wait, &key(8)));
    let wait = waiting(waiter.acknowledge(wait, &key(9)));
    assert_eq!(wait.acked(), &vec![key(8), key(9)]);
    let wait = waiting(waiter.acknowledge(wait, &key(1)));
    assert!(wait.is_stalled());
}
