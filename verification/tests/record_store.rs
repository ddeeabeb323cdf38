use cubist_solana_program::addressing::derive_record_address;
use cubist_solana_program::errors::MyError;
use cubist_solana_program::identity::Identity;
use cubist_solana_program::ledger::Ledger;
use cubist_solana_program::store::InteractionAccount;
use cubist_solana_program::store::MAX_INTERACTIONS;
use cubist_solana_program::store::MAX_SIZE;

fn ident(b: u8) -> Identity {
    Identity::new([b; 32])
}

const PROGRAM_ID_BYTES: [u8; 32] = [
    123, 3, 173, 28, 67, 84, 12, 175, 131, 141, 241, 18, 209, 230, 40, 11, 177, 175, 109, 66, 27,
    38, 225, 61, 59, 86, 232, 181, 66, 53, 117, 77,
];

#[test]
fn derive_is_deterministic() {
    let alice = ident(7);
    let (a1, b1) = derive_record_address(&alice).unwrap();
    let (a2, b2) = derive_record_address(&alice).unwrap();
    assert_eq!(a1.bytes, a2.bytes);
    assert_eq!(b1, b2);
}

#[test]
fn derive_distinct_owners_differ() {
    let alice = ident(7);
    let bob = ident(8);
    let (addr_a, _) = derive_record_address(&alice).unwrap();
    let (addr_b, _) = derive_record_address(&bob).unwrap();
    assert_ne!(addr_a.bytes, addr_b.bytes);
}

#[test]
fn derive_matches_runtime_derivation() {
    let owner = ident(42);
    let (addr, bump) = derive_record_address(&owner).unwrap();
    let program_id = anchor_lang::prelude::Pubkey::new_from_array(PROGRAM_ID_BYTES);
    let (expected, expected_bump) = anchor_lang::prelude::Pubkey::find_program_address(
        &[b"interactions", &owner.bytes],
        &program_id,
    );
    assert_eq!(addr.bytes, expected.to_bytes());
    assert_eq!(bump, expected_bump);
    assert_ne!(addr.bytes, owner.bytes);
}

#[test]
fn identity_equals_is_exact() {
    let a = ident(1);
    let b = ident(1);
    let c = ident(2);
    assert!(a.equals(&b));
    assert!(!a.equals(&c));
    let mut almost = [1u8; 32];
    almost[31] = 3;
    assert!(!a.equals(&Identity::new(almost)));
}

#[test]
fn initialize_sets_authority_and_empty_log() {
    let alice = ident(7);
    let mut ledger = Ledger::new();
    assert!(!ledger.has_store(&alice));
    let addr = ledger.initialize(&alice, &alice).unwrap();
    assert!(ledger.has_store(&alice));
    let (expected_addr, _) = derive_record_address(&alice).unwrap();
    assert_eq!(addr.bytes, expected_addr.bytes);
    let store = ledger.record_store(&alice).unwrap();
    assert_eq!(store.authority.bytes, alice.bytes);
    assert!(store.interactions.is_empty());
}

#[test]
fn initialize_twice_fails_and_touches_nothing() {
    let alice = ident(7);
    let mut ledger = Ledger::new();
    ledger.initialize(&alice, &alice).unwrap();
    ledger.store_interaction(&alice, &alice, 100).unwrap();
    let second = ledger.initialize(&alice, &alice);
    assert_eq!(second.unwrap_err(), MyError::AlreadyInitialized);
    let store = ledger.record_store(&alice).unwrap();
    assert_eq!(store.authority.bytes, alice.bytes);
    assert_eq!(store.interactions.len(), 1);
    assert_eq!(store.interactions[0].last_interaction_timestamp, 100);
}

#[test]
fn store_interaction_appends_one_self_attributed_entry() {
    let alice = ident(7);
    let mut ledger = Ledger::new();
    ledger.initialize(&alice, &alice).unwrap();
    ledger.store_interaction(&alice, &alice, 1234).unwrap();
    let store = ledger.record_store(&alice).unwrap();
    assert_eq!(store.interactions.len(), 1);
    assert_eq!(store.interactions[0].wallet_address.bytes, alice.bytes);
    assert_eq!(store.interactions[0].last_interaction_timestamp, 1234);
}

#[test]
fn store_interaction_by_other_caller_fails_unchanged() {
    let alice = ident(7);
    let bob = ident(8);
    let mut ledger = Ledger::new();
    ledger.initialize(&alice, &alice).unwrap();
    let r = ledger.store_interaction(&alice, &bob, 100);
    assert_eq!(r.unwrap_err(), MyError::InvalidAuthority);
    let store = ledger.record_store(&alice).unwrap();
    assert!(store.interactions.is_empty());
}

#[test]
fn store_interaction_stops_exactly_at_capacity() {
    let alice = ident(7);
    let mut ledger = Ledger::new();
    ledger.initialize(&alice, &alice).unwrap();
    for k in 0..MAX_INTERACTIONS {
        let r = ledger.store_interaction(&alice, &alice, k as i64);
        assert!(r.is_ok());
    }
    let overflow = ledger.store_interaction(&alice, &alice, 999);
    assert_eq!(overflow.unwrap_err(), MyError::CapacityExceeded);
    let store = ledger.record_store(&alice).unwrap();
    assert_eq!(store.interactions.len(), MAX_INTERACTIONS);
    for k in 0..MAX_INTERACTIONS {
        assert_eq!(store.interactions[k].last_interaction_timestamp, k as i64);
        assert_eq!(store.interactions[k].wallet_address.bytes, alice.bytes);
    }
}

#[test]
fn scenario_two_interactions_then_read() {
    let alice = ident(1);
    let mut ledger = Ledger::new();
    ledger.initialize(&alice, &alice).unwrap();
    ledger.store_interaction(&alice, &alice, 100).unwrap();
    ledger.store_interaction(&alice, &alice, 200).unwrap();
    assert_eq!(ledger.read_interactions(&alice), Ok(()));
    let store = ledger.record_store(&alice).unwrap();
    assert_eq!(store.interactions.len(), 2);
    assert_eq!(store.interactions[0].wallet_address.bytes, alice.bytes);
    assert_eq!(store.interactions[0].last_interaction_timestamp, 100);
    assert_eq!(store.interactions[1].wallet_address.bytes, alice.bytes);
    assert_eq!(store.interactions[1].last_interaction_timestamp, 200);
}

#[test]
fn scenario_foreign_caller_leaves_store_empty() {
    let alice = ident(1);
    let bob = ident(2);
    let mut ledger = Ledger::new();
    ledger.initialize(&alice, &alice).unwrap();
    let r = ledger.store_interaction(&alice, &bob, 100);
    assert_eq!(r.unwrap_err(), MyError::InvalidAuthority);
    let store = ledger.record_store(&alice).unwrap();
    assert!(store.interactions.is_empty());
    assert_eq!(store.authority.bytes, alice.bytes);
}

#[test]
fn account_level_append_checks_authority_and_capacity() {
    let alice = ident(5);
    let bob = ident(6);
    let mut account = InteractionAccount::initialize(alice);
    assert_eq!(account.authority.bytes, alice.bytes);
    assert!(account.interactions.is_empty());
    assert_eq!(
        account.store_interaction(&bob, 1).unwrap_err(),
        MyError::InvalidAuthority
    );
    for k in 0..MAX_INTERACTIONS {
        assert!(account.store_interaction(&alice, k as i64).is_ok());
    }
    assert_eq!(
        account.store_interaction(&alice, 99).unwrap_err(),
        MyError::CapacityExceeded
    );
    assert_eq!(account.interactions.len(), MAX_INTERACTIONS);
    assert_eq!(account.read_interactions(), Ok(()));
}

#[test]
fn two_owners_have_independent_stores() {
    let alice = ident(1);
    let bob = ident(2);
    let mut ledger = Ledger::new();
    let addr_a = ledger.initialize(&alice, &alice).unwrap();
    let addr_b = ledger.initialize(&bob, &bob).unwrap();
    assert_ne!(addr_a.bytes, addr_b.bytes);
    ledger.store_interaction(&alice, &alice, 10).unwrap();
    ledger.store_interaction(&bob, &bob, 20).unwrap();
    ledger.store_interaction(&bob, &bob, 30).unwrap();
    let store_a = ledger.record_store(&alice).unwrap();
    assert_eq!(store_a.interactions.len(), 1);
    assert_eq!(store_a.interactions[0].last_interaction_timestamp, 10);
    let store_b = ledger.record_store(&bob).unwrap();
    assert_eq!(store_b.interactions.len(), 2);
    assert_eq!(store_b.authority.bytes, bob.bytes);
    assert_eq!(store_b.interactions[1].last_interaction_timestamp, 30);
}

#[test]
fn fixed_allocation_size_matches_layout() {
    assert_eq!(MAX_INTERACTIONS, 10);
    assert_eq!(MAX_SIZE, 32 + 4 + 10 * (32 + 8));
}
