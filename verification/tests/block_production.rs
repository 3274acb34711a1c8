use mempool::block_service::{
    check_proposer, choose_graffiti, merge_slot, retries_with_full_block, BlockError,
    BlockServiceBuilder, BlockServiceNotification, BlockType, CandidateError, Errors,
    FallbackError, Graffiti, NodeStep, PublicKeyBytes, Severity, UpdatePlan,
};
use mempool::error::{require, DvfError};

type Builder = BlockServiceBuilder<u8, u16, u32, u64, String>;

fn complete_builder() -> Builder {
    Builder::new().validator_store(1).slot_clock(2).beacon_nodes(3).runtime_context(4)
}

fn build_error(builder: Builder) -> String {
    match builder.build() {
        Ok(_) => panic!("built without a part"),
        Err(message) => message,
    }
}

fn notification(slot: u64, proposers: u8) -> BlockServiceNotification {
    BlockServiceNotification {
        slot,
        block_proposers: (0..proposers).map(|i| PublicKeyBytes([i; 48])).collect(),
    }
}

#[test]
fn require_accepts_what_holds() {
    require(true, "holds");
    require(1 + 1 == 2, "arithmetic");
}

#[test]
fn dvf_errors_compare_by_value() {
    assert_eq!(
        DvfError::InsufficientSignatures { got: 1, expected: 3 },
        DvfError::InsufficientSignatures { got: 1, expected: 3 }
    );
    assert_ne!(
        DvfError::InsufficientSignatures { got: 1, expected: 3 },
        DvfError::InsufficientValidSignatures { got: 1, expected: 3 }
    );
    assert_ne!(DvfError::InvalidOperatorId { id: 1 }, DvfError::InvalidSignatureShare { id: 1 });
    assert_eq!(DvfError::ConsensusFailure("a".to_string()).clone(), DvfError::ConsensusFailure("a".to_string()));
    assert_ne!(DvfError::KeyGenError("a".to_string()), DvfError::UnexpectedCall("a".to_string()));
    assert_ne!(DvfError::DifferentLength { x: 1, y: 2 }, DvfError::InvalidLength);
    assert_eq!(format!("{:?}", DvfError::Unknown), "Unknown");
}

#[test]
fn one_irrecoverable_failure_makes_all_irrecoverable() {
    let errors = Errors(vec![
        ("a".to_string(), FallbackError::Unavailable(CandidateError::Offline)),
        ("b".to_string(), FallbackError::RequestFailed(BlockError::Recoverable("x".to_string()))),
        ("c".to_string(), FallbackError::RequestFailed(BlockError::Irrecoverable("y".to_string()))),
    ]);
    match BlockError::from_errors(&errors, "all failed".to_string()) {
        BlockError::Irrecoverable(message) => assert_eq!(message, "all failed"),
        other => panic!("unexpected {:?}", other),
    }
}

#[test]
fn failures_before_signing_stay_recoverable() {
    let errors = Errors(vec![
        ("a".to_string(), FallbackError::Unavailable(CandidateError::NotSynced)),
        ("b".to_string(), FallbackError::RequestFailed(BlockError::Recoverable("x".to_string()))),
        ("c".to_string(), FallbackError::RequestFailed(BlockError::SignBlockNotLeader)),
        ("d".to_string(), FallbackError::RequestFailed(BlockError::RandaoNotLeader)),
    ]);
    match BlockError::from_errors(&errors, "all failed".to_string()) {
        BlockError::Recoverable(message) => assert_eq!(message, "all failed"),
        other => panic!("unexpected {:?}", other),
    }
    assert!(matches!(
        BlockError::from_errors(&Errors(Vec::new()), String::new()),
        BlockError::Recoverable(_)
    ));
}

#[test]
fn failures_are_named_by_their_step() {
    match BlockError::clock_unreadable() {
        BlockError::Recoverable(message) => {
            assert_eq!(message, "Unable to determine current slot from clock")
        },
        other => panic!("unexpected {:?}", other),
    }
    assert!(matches!(
        BlockError::randao_failure(true, "d".to_string()),
        BlockError::RandaoNotLeader
    ));
    assert!(matches!(
        BlockError::randao_failure(false, "d".to_string()),
        BlockError::Recoverable(detail) if detail == "d"
    ));
    assert!(matches!(
        BlockError::signing_failure(true, "d".to_string()),
        BlockError::SignBlockNotLeader
    ));
    assert!(matches!(
        BlockError::signing_failure(false, "d".to_string()),
        BlockError::Recoverable(detail) if detail == "d"
    ));
    assert!(matches!(
        BlockError::node_failure(NodeStep::Fetch, "d".to_string()),
        BlockError::Recoverable(detail) if detail == "d"
    ));
    assert!(matches!(
        BlockError::node_failure(NodeStep::Post, "d".to_string()),
        BlockError::Irrecoverable(detail) if detail == "d"
    ));
}

#[test]
fn severity_follows_the_kind_of_failure() {
    assert_eq!(BlockError::RandaoNotLeader.severity(), Severity::Error);
    assert_eq!(BlockError::SignBlockNotLeader.severity(), Severity::Info);
    assert_eq!(BlockError::Recoverable(String::new()).severity(), Severity::Critical);
    assert_eq!(BlockError::Irrecoverable(String::new()).severity(), Severity::Critical);
}

#[test]
fn proposer_index_must_match() {
    assert!(check_proposer(Some(5), 5).is_ok());
    for expected in [None, Some(4)] {
        match check_proposer(expected, 5) {
            Err(BlockError::Recoverable(message)) => assert_eq!(
                message,
                "Proposer index does not match block proposer. Beacon chain re-orged"
            ),
            other => panic!("unexpected {:?}", other),
        }
    }
}

#[test]
fn graffiti_comes_from_the_first_source_that_has_one() {
    let file = Some(Graffiti([1; 32]));
    let store = Some(Graffiti([2; 32]));
    let fallback = Some(Graffiti([3; 32]));
    assert_eq!(choose_graffiti(file, store, fallback).unwrap().0, [1; 32]);
    assert_eq!(choose_graffiti(None, store, fallback).unwrap().0, [2; 32]);
    assert_eq!(choose_graffiti(None, None, fallback).unwrap().0, [3; 32]);
    assert!(choose_graffiti(None, None, None).is_none());
}

#[test]
fn merge_slot_is_the_start_of_the_fork_epoch() {
    assert_eq!(merge_slot(Some(10), 32), 320);
    assert_eq!(merge_slot(Some(0), 32), 0);
    assert_eq!(merge_slot(None, 32), u64::MAX);
    assert_eq!(merge_slot(None, 1), u64::MAX);
    assert_eq!(merge_slot(None, 0), 0);
    assert_eq!(merge_slot(Some(u64::MAX / 2), 3), u64::MAX);
}

#[test]
fn only_recoverable_blinded_failures_fall_back() {
    assert!(retries_with_full_block(&Err(BlockError::Recoverable(String::new()))));
    assert!(!retries_with_full_block(&Err(BlockError::Irrecoverable(String::new()))));
    assert!(!retries_with_full_block(&Err(BlockError::RandaoNotLeader)));
    assert!(!retries_with_full_block(&Err(BlockError::SignBlockNotLeader)));
    assert!(!retries_with_full_block(&Ok(())));
}

#[test]
fn build_names_the_first_missing_part() {
    assert_eq!(build_error(Builder::new()), "Cannot build BlockService without validator_store");
    assert_eq!(
        build_error(Builder::new().validator_store(1)),
        "Cannot build BlockService without slot_clock"
    );
    assert_eq!(
        build_error(Builder::new().validator_store(1).slot_clock(2)),
        "Cannot build BlockService without beacon_node"
    );
    assert_eq!(
        build_error(Builder::new().validator_store(1).slot_clock(2).beacon_nodes(3)),
        "Cannot build BlockService without runtime_context"
    );
    assert_eq!(
        build_error(Builder::new().slot_clock(2).beacon_nodes(3).runtime_context(4)),
        "Cannot build BlockService without validator_store"
    );
}

#[test]
fn build_hands_the_parts_over() {
    let service = match complete_builder()
        .graffiti(Some(Graffiti([7; 32])))
        .graffiti_file(Some("file".to_string()))
        .private_tx_proposals(true)
        .build()
    {
        Ok(service) => service,
        Err(message) => panic!("{}", message),
    };
    let copy = service.clone();
    for parts in [service.inner(), copy.inner()] {
        assert_eq!(parts.validator_store, 1);
        assert_eq!(parts.slot_clock, 2);
        assert_eq!(parts.beacon_nodes, 3);
        assert_eq!(parts.context, 4);
        assert_eq!(parts.graffiti.unwrap().0, [7; 32]);
        assert_eq!(parts.graffiti_file, Some("file".to_string()));
        assert!(parts.private_tx_proposals);
    }
}

#[test]
fn builder_defaults_are_empty() {
    let service = match complete_builder().build() {
        Ok(service) => service,
        Err(message) => panic!("{}", message),
    };
    assert!(service.inner().graffiti.is_none());
    assert!(service.inner().graffiti_file.is_none());
    assert!(!service.inner().private_tx_proposals);
    let cleared = match complete_builder().graffiti(Some(Graffiti([1; 32]))).graffiti(None).build() {
        Ok(service) => service,
        Err(message) => panic!("{}", message),
    };
    assert!(cleared.inner().graffiti.is_none());
}

#[test]
fn update_needs_the_clock_and_the_right_slot() {
    let service = match complete_builder().build() {
        Ok(service) => service,
        Err(message) => panic!("{}", message),
    };
    assert!(matches!(
        service.plan_update(&notification(5, 1), None, 0, 100),
        UpdatePlan::ClockUnreadable
    ));
    assert!(matches!(
        service.plan_update(&notification(5, 1), Some(6), 0, 100),
        UpdatePlan::ExpiredSlot
    ));
    assert!(matches!(
        service.plan_update(&notification(0, 1), Some(0), 0, 100),
        UpdatePlan::GenesisSlot
    ));
    assert!(matches!(
        service.plan_update(&notification(0, 1), Some(1), 0, 100),
        UpdatePlan::ExpiredSlot
    ));
}

#[test]
fn update_produces_for_every_proposer() {
    let service = match complete_builder().build() {
        Ok(service) => service,
        Err(message) => panic!("{}", message),
    };
    match service.plan_update(&notification(200, 3), Some(200), 0, 100) {
        UpdatePlan::Produce(attempts) => {
            assert_eq!(attempts.len(), 3);
            for (i, attempt) in attempts.iter().enumerate() {
                assert_eq!(attempt.validator.0, [i as u8; 48]);
                assert_eq!(attempt.block_type, BlockType::Full);
            }
        },
        other => panic!("unexpected {:?}", other),
    }
    match service.plan_update(&notification(200, 0), Some(200), 0, 100) {
        UpdatePlan::Produce(attempts) => assert!(attempts.is_empty()),
        other => panic!("unexpected {:?}", other),
    }
}

#[test]
fn blinded_blocks_come_first_after_the_merge() {
    let service = match complete_builder().private_tx_proposals(true).build() {
        Ok(service) => service,
        Err(message) => panic!("{}", message),
    };
    let first = |slot: u64| match service.plan_update(&notification(slot, 1), Some(slot), 0, 100) {
        UpdatePlan::Produce(attempts) => attempts[0].block_type,
        other => panic!("unexpected {:?}", other),
    };
    assert_eq!(first(99), BlockType::Full);
    assert_eq!(first(100), BlockType::Blinded);
    assert_eq!(first(101), BlockType::Blinded);
}
