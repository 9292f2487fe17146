use parachain_hooks::relay_storage_roots::{Config, Pallet};

fn root(b: u8) -> [u8; 32] {
    [b; 32]
}

fn pallet(max_storage_roots: u32) -> Pallet {
    Pallet::new(Config { max_storage_roots })
}

#[test]
fn empty_history() {
    let p = pallet(4);
    assert_eq!(p.num_roots(), 0);
    assert!(p.relay_storage_root_keys().is_empty());
    assert_eq!(p.get_relay_storage_root(0), None);
    assert!(!p.contains_relay_block(0));
    assert_eq!(p.max_storage_roots(), 4);
}

#[test]
fn stores_and_returns_roots() {
    let mut p = pallet(4);
    p.set_relay_storage_root(5, root(0x55));
    p.set_relay_storage_root(6, root(0x66));
    assert_eq!(p.get_relay_storage_root(5), Some(root(0x55)));
    assert_eq!(p.get_relay_storage_root(6), Some(root(0x66)));
    assert_eq!(p.get_relay_storage_root(7), None);
    assert!(p.contains_relay_block(5));
    assert!(!p.contains_relay_block(7));
    assert_eq!(p.relay_storage_root_keys(), vec![5, 6]);
}

#[test]
fn idempotent_same_relay_block() {
    let mut p = pallet(4);
    p.set_relay_storage_root(5, root(0x55));
    let keys_once = p.relay_storage_root_keys();
    let root_once = p.get_relay_storage_root(5);
    // The same relay block observed again by the next local block.
    p.set_relay_storage_root(5, root(0x55));
    assert_eq!(p.relay_storage_root_keys(), keys_once);
    assert_eq!(p.get_relay_storage_root(5), root_once);
    assert_eq!(p.num_roots(), 1);
}

#[test]
fn gap_tolerance() {
    let mut p = pallet(10);
    for n in [5u32, 5, 7, 10] {
        p.set_relay_storage_root(n, root(n as u8));
    }
    assert_eq!(p.relay_storage_root_keys(), vec![5, 7, 10]);
    assert_eq!(p.get_relay_storage_root(6), None);
    assert_eq!(p.get_relay_storage_root(8), None);
    assert_eq!(p.get_relay_storage_root(9), None);
    assert_eq!(p.get_relay_storage_root(5), Some(root(5)));
    assert_eq!(p.get_relay_storage_root(7), Some(root(7)));
    assert_eq!(p.get_relay_storage_root(10), Some(root(10)));
}

#[test]
fn fifo_eviction_scenario() {
    let mut p = pallet(4);
    // Five consecutive local blocks observe relay numbers 0 through 4.
    for n in 0u32..5 {
        p.set_relay_storage_root(n, root(n as u8));
    }
    assert_eq!(p.relay_storage_root_keys(), vec![1, 2, 3, 4]);
    assert_eq!(p.get_relay_storage_root(0), None);
    for n in 1u32..5 {
        assert_eq!(p.get_relay_storage_root(n), Some(root(n as u8)));
    }
    assert_eq!(p.num_roots(), 4);
}

#[test]
fn bounded_growth_keeps_newest() {
    let mut p = pallet(3);
    for n in [10u32, 20, 30, 40, 50] {
        p.set_relay_storage_root(n, root(n as u8));
    }
    assert_eq!(p.relay_storage_root_keys(), vec![30, 40, 50]);
    assert_eq!(p.num_roots(), 3);
    assert_eq!(p.get_relay_storage_root(10), None);
    assert_eq!(p.get_relay_storage_root(20), None);
    assert_eq!(p.get_relay_storage_root(30), Some(root(30)));
}

#[test]
fn zero_bound_retains_nothing() {
    let mut p = pallet(0);
    p.set_relay_storage_root(1, root(1));
    p.set_relay_storage_root(2, root(2));
    assert_eq!(p.num_roots(), 0);
    assert!(p.relay_storage_root_keys().is_empty());
    assert_eq!(p.get_relay_storage_root(1), None);
}

#[test]
fn eviction_over_many_blocks() {
    let mut p = pallet(2);
    for n in 0u32..100 {
        p.set_relay_storage_root(n, root(n as u8));
        assert!(p.num_roots() <= 2);
    }
    assert_eq!(p.relay_storage_root_keys(), vec![98, 99]);
}
