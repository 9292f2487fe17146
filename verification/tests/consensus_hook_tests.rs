use parachain_hooks::consensus_hook::{
    NimbusVelocityConsensusHook, SlotAuthorshipRecord, UnincludedSegmentCapacity,
    STATE_PROOF_STORAGE_READS,
};

fn record(slot: u64, authored_count: u32) -> SlotAuthorshipRecord {
    SlotAuthorshipRecord {
        slot,
        authored_count,
    }
}

#[test]
fn no_record_always_allows() {
    let hook = NimbusVelocityConsensusHook::new(6000, 3, 5);
    assert!(hook.can_build_upon(None, 0, 0));
    assert!(hook.can_build_upon(None, 0, 10));
    assert!(hook.can_build_upon(None, 4, u64::MAX));
}

#[test]
fn full_segment_blocks_regardless_of_slot() {
    let hook = NimbusVelocityConsensusHook::new(6000, 3, 5);
    // Segment at or above the bound: refused for same, forward, and past slots.
    assert!(!hook.can_build_upon(Some(record(10, 0)), 5, 10));
    assert!(!hook.can_build_upon(Some(record(10, 0)), 6, 11));
    assert!(!hook.can_build_upon(Some(record(10, 0)), 5, 9));
    // Just below the bound: the slot rules decide.
    assert!(hook.can_build_upon(Some(record(10, 0)), 4, 11));
}

#[test]
fn zero_capacity_is_raised_to_one() {
    let hook = NimbusVelocityConsensusHook::new(6000, 3, 0);
    // The effective bound is 1, so an empty segment still admits.
    assert!(hook.can_build_upon(Some(record(10, 0)), 0, 11));
    assert!(!hook.can_build_upon(Some(record(10, 0)), 1, 11));
}

#[test]
fn same_slot_budget_is_velocity_plus_one() {
    let hook = NimbusVelocityConsensusHook::new(6000, 3, 5);
    // Budget is 4 blocks per slot: attempts 1 through 4 succeed.
    assert!(hook.can_build_upon(Some(record(10, 0)), 0, 10));
    assert!(hook.can_build_upon(Some(record(10, 1)), 0, 10));
    assert!(hook.can_build_upon(Some(record(10, 2)), 0, 10));
    assert!(hook.can_build_upon(Some(record(10, 3)), 0, 10));
    // The fifth and later attempts fail.
    assert!(!hook.can_build_upon(Some(record(10, 4)), 0, 10));
    assert!(!hook.can_build_upon(Some(record(10, 5)), 0, 10));
}

#[test]
fn slot_must_move_forward() {
    let hook = NimbusVelocityConsensusHook::new(6000, 3, 5);
    assert!(!hook.can_build_upon(Some(record(10, 0)), 0, 9));
    assert!(!hook.can_build_upon(Some(record(10, 4)), 0, 9));
    assert!(hook.can_build_upon(Some(record(10, 4)), 0, 11));
}

#[test]
fn bootstrap_then_velocity_zero_budget() {
    // A configured velocity of 0 is raised to 1, so the budget is 2.
    let hook = NimbusVelocityConsensusHook::new(6000, 0, 5);
    // First block: no record yet.
    assert!(hook.can_build_upon(None, 0, 10));
    // One block authored in slot 10: a second one still fits the budget.
    assert!(hook.can_build_upon(Some(record(10, 1)), 1, 10));
    // Two blocks authored: the budget for slot 10 is spent.
    assert!(!hook.can_build_upon(Some(record(10, 2)), 2, 10));
    // Moving forward to slot 11 is admitted again.
    assert!(hook.can_build_upon(Some(record(10, 2)), 2, 11));
}

#[test]
fn largest_velocity_has_room() {
    let hook = NimbusVelocityConsensusHook::new(6000, u32::MAX, 5);
    assert!(hook.can_build_upon(Some(record(10, u32::MAX)), 0, 10));
}

#[test]
fn on_state_proof_reports_capacity_and_weight() {
    let hook = NimbusVelocityConsensusHook::new(6000, 3, 7);
    let (weight, capacity) = hook.on_state_proof(42, Some(record(10, 2)));
    assert_eq!(weight, STATE_PROOF_STORAGE_READS);
    assert_eq!(capacity.get(), 7);

    let hook_zero = NimbusVelocityConsensusHook::new(6000, 3, 0);
    let (_, capacity_zero) = hook_zero.on_state_proof(42, None);
    assert_eq!(capacity_zero.get(), 1);
}

#[test]
fn authored_count_limit_check() {
    let hook = NimbusVelocityConsensusHook::new(6000, 2, 5);
    // Budget is 3: counts up to 3 are within the limit, 4 is a breach.
    assert!(hook.authored_count_within_limit(None));
    assert!(hook.authored_count_within_limit(Some(record(10, 3))));
    assert!(!hook.authored_count_within_limit(Some(record(10, 4))));
}

#[test]
fn capacity_value_is_never_zero() {
    assert_eq!(UnincludedSegmentCapacity::new(0).get(), 1);
    assert_eq!(UnincludedSegmentCapacity::new(1).get(), 1);
    assert_eq!(UnincludedSegmentCapacity::new(9).get(), 9);
}
