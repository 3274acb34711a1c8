use mempool::config::{Address, Authority, Committee, CommitteeError};
use mempool::crypto::PublicKey;

fn key(n: u8) -> PublicKey {
    PublicKey([n; 32])
}

fn address(n: u8) -> Address {
    Address { v6: false, ip: 0x7f00_0001, port: 9000 + n as u16 }
}

fn authority(n: u8, stake: u32) -> Authority {
    Authority { name: key(n), stake, address: address(n) }
}

fn committee(stakes: &[u32]) -> Committee {
    let list = stakes.iter().enumerate().map(|(i, stake)| authority(i as u8, *stake)).collect();
    Committee::new(list).unwrap()
}

#[test]
fn new_keeps_the_order_given() {
    let made = committee(&[1, 2, 3]);
    assert_eq!(made.size(), 3);
    assert_eq!(made.authorities(), &vec![authority(0, 1), authority(1, 2), authority(2, 3)]);
}

#[test]
fn new_refuses_a_name_twice() {
    let list = vec![authority(1, 1), authority(2, 1), authority(1, 5)];
    assert_eq!(Committee::new(list).err(), Some(CommitteeError::DuplicateAuthority));
}

#[test]
fn new_refuses_stake_that_overflows() {
    let list = vec![authority(1, u32::MAX), authority(2, 1)];
    assert_eq!(Committee::new(list).err(), Some(CommitteeError::StakeOverflow));
    let fits = vec![authority(1, u32::MAX - 1), authority(2, 1)];
    assert_eq!(Committee::new(fits).unwrap().total_stake(), u32::MAX);
}

#[test]
fn duplicate_is_reported_before_overflow() {
    let list = vec![authority(1, u32::MAX), authority(1, u32::MAX)];
    assert_eq!(Committee::new(list).err(), Some(CommitteeError::DuplicateAuthority));
}

#[test]
fn empty_committee_is_accepted() {
    let made = Committee::new(Vec::new()).unwrap();
    assert_eq!(made.size(), 0);
    assert_eq!(made.total_stake(), 0);
    assert_eq!(made.quorum_threshold(), 1);
    assert_eq!(made.stake(&key(1)), 0);
}

#[test]
fn stake_of_a_stranger_is_zero() {
    let made = committee(&[4, 5]);
    assert_eq!(made.stake(&key(0)), 4);
    assert_eq!(made.stake(&key(1)), 5);
    assert_eq!(made.stake(&key(9)), 0);
}

#[test]
fn quorum_threshold_is_more_than_two_thirds() {
    assert_eq!(committee(&[1]).quorum_threshold(), 1);
    assert_eq!(committee(&[1, 1]).quorum_threshold(), 2);
    assert_eq!(committee(&[1, 1, 1]).quorum_threshold(), 3);
    assert_eq!(committee(&[1, 1, 1, 1]).quorum_threshold(), 3);
    assert_eq!(committee(&[1; 7]).quorum_threshold(), 5);
    assert_eq!(committee(&[1; 10]).quorum_threshold(), 7);
    assert_eq!(committee(&[5, 1, 1, 1]).quorum_threshold(), 6);
    assert_eq!(committee(&[u32::MAX]).quorum_threshold(), 2_863_311_531);
}

#[test]
fn total_stake_adds_all_stakes() {
    assert_eq!(committee(&[3, 4, 5]).total_stake(), 12);
}

#[test]
fn mempool_address_is_that_of_the_authority() {
    let made = committee(&[1, 1]);
    assert_eq!(made.mempool_address(&key(1)), Some(address(1)));
    assert_eq!(made.mempool_address(&key(7)), None);
    assert_eq!(made.authority(&key(0)), Some(authority(0, 1)));
    assert_eq!(made.authority(&key(7)), None);
}

#[test]
fn broadcast_addresses_leave_out_oneself() {
    let made = committee(&[1, 1, 1, 1]);
    assert_eq!(
        made.broadcast_addresses(&key(1)),
        vec![(key(0), address(0)), (key(2), address(2)), (key(3), address(3))]
    );
    assert_eq!(made.broadcast_addresses(&key(9)).len(), 4);
    assert!(committee(&[1]).broadcast_addresses(&key(0)).is_empty());
}

#[test]
fn clone_holds_the_same_authorities() {
    let made = committee(&[1, 2, 3]);
    let copy = made.clone();
    assert_eq!(copy.authorities(), made.authorities());
    assert_eq!(copy.quorum_threshold(), made.quorum_threshold());
}
