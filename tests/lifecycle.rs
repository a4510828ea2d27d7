use zero_trust::address::same_key;
use zero_trust::{
    delete_user_data, derive_address, upsert_user_data, verify_address, DeleteUserData,
    RecordStore, UpsertUserData, ZeroTrustError,
};

const PROGRAM: [u8; 32] = [9u8; 32];
const OWNER_X: [u8; 32] = [1u8; 32];
const OWNER_Y: [u8; 32] = [2u8; 32];

fn hash_one() -> [u8; 32] {
    let mut h = [0u8; 32];
    h[31] = 1;
    h
}

fn address_of(owner: &[u8; 32]) -> [u8; 32] {
    derive_address(owner, &PROGRAM).expect("an address exists").0
}

fn upsert(store: &mut RecordStore, owner: [u8; 32], hash: [u8; 32], uri: &str) -> Result<(), ZeroTrustError> {
    let ctx = UpsertUserData { owner, user_record: address_of(&owner) };
    upsert_user_data(store, &ctx, hash, uri.to_string())
}

fn delete(store: &mut RecordStore, signer: [u8; 32], address: [u8; 32]) -> Result<usize, ZeroTrustError> {
    let ctx = DeleteUserData { owner: signer, user_record: address };
    delete_user_data(store, &ctx)
}

#[test]
fn example_create_refuse_other_then_delete() {
    let mut store = RecordStore::new(PROGRAM);
    let x_addr = address_of(&OWNER_X);
    assert_eq!(upsert(&mut store, OWNER_X, hash_one(), "ipfs://abc"), Ok(()));
    let rec = store.get(&x_addr).expect("record created");
    assert_eq!(rec.owner, OWNER_X);
    assert_eq!(rec.data_hash, hash_one());
    assert_eq!(rec.uri, "ipfs://abc");
    assert_eq!(store.space_of(&x_addr), Some(77 + 10));

    assert_eq!(delete(&mut store, OWNER_Y, x_addr), Err(ZeroTrustError::NotAuthorized));
    assert!(store.get(&x_addr).is_some());

    assert_eq!(delete(&mut store, OWNER_X, x_addr), Ok(87));
    assert!(store.get(&x_addr).is_none());
    assert_eq!(store.len(), 0);
}

#[test]
fn distinct_owners_get_distinct_addresses() {
    assert_ne!(address_of(&OWNER_X), address_of(&OWNER_Y));
}

#[test]
fn derivation_is_stable() {
    let a = derive_address(&OWNER_X, &PROGRAM);
    let b = derive_address(&OWNER_X, &PROGRAM);
    assert!(a.is_some());
    assert_eq!(a, b);
}

#[test]
fn derived_address_is_not_the_owner() {
    let (addr, _) = derive_address(&OWNER_X, &PROGRAM).unwrap();
    assert_ne!(addr, OWNER_X);
    assert_ne!(addr, PROGRAM);
}

#[test]
fn stored_bump_reproduces_address() {
    let (addr, bump) = derive_address(&OWNER_X, &PROGRAM).unwrap();
    assert!(bump >= 1);
    assert!(verify_address(&OWNER_X, bump, &PROGRAM, &addr));
    assert!(!verify_address(&OWNER_Y, bump, &PROGRAM, &addr));
    assert!(!verify_address(&OWNER_X, bump, &PROGRAM, &[0u8; 32]));
}

#[test]
fn second_upsert_overwrites_single_record() {
    let mut store = RecordStore::new(PROGRAM);
    let addr = address_of(&OWNER_X);
    assert_eq!(upsert(&mut store, OWNER_X, [3u8; 32], "ipfs://first"), Ok(()));
    assert_eq!(upsert(&mut store, OWNER_X, [4u8; 32], "ipfs://next"), Ok(()));
    assert_eq!(store.len(), 1);
    let rec = store.get(&addr).unwrap();
    assert_eq!(rec.owner, OWNER_X);
    assert_eq!(rec.data_hash, [4u8; 32]);
    assert_eq!(rec.uri, "ipfs://next");
    assert_eq!(store.space_of(&addr), Some(77 + 12));
}

#[test]
fn repeated_upsert_is_idempotent() {
    let mut store = RecordStore::new(PROGRAM);
    let addr = address_of(&OWNER_X);
    assert_eq!(upsert(&mut store, OWNER_X, [5u8; 32], "ar://data"), Ok(()));
    assert_eq!(upsert(&mut store, OWNER_X, [5u8; 32], "ar://data"), Ok(()));
    assert_eq!(store.len(), 1);
    let rec = store.get(&addr).unwrap();
    assert_eq!(rec.data_hash, [5u8; 32]);
    assert_eq!(rec.uri, "ar://data");
}

#[test]
fn upsert_by_other_owner_leaves_record() {
    let mut store = RecordStore::new(PROGRAM);
    let x_addr = address_of(&OWNER_X);
    let y_addr = address_of(&OWNER_Y);
    assert_eq!(upsert(&mut store, OWNER_X, [6u8; 32], "ipfs://x"), Ok(()));
    assert_eq!(upsert(&mut store, OWNER_Y, [7u8; 32], "ipfs://y"), Ok(()));
    let x = store.get(&x_addr).unwrap();
    assert_eq!(x.owner, OWNER_X);
    assert_eq!(x.data_hash, [6u8; 32]);
    assert_eq!(x.uri, "ipfs://x");
    let y = store.get(&y_addr).unwrap();
    assert_eq!(y.owner, OWNER_Y);
    assert_eq!(store.len(), 2);
}

#[test]
fn upsert_at_foreign_address_is_refused() {
    let mut store = RecordStore::new(PROGRAM);
    let x_addr = address_of(&OWNER_X);
    assert_eq!(upsert(&mut store, OWNER_X, [6u8; 32], "ipfs://x"), Ok(()));
    let ctx = UpsertUserData { owner: OWNER_Y, user_record: x_addr };
    assert_eq!(
        upsert_user_data(&mut store, &ctx, [8u8; 32], "ipfs://evil".to_string()),
        Err(ZeroTrustError::AddressMismatch)
    );
    let x = store.get(&x_addr).unwrap();
    assert_eq!(x.data_hash, [6u8; 32]);
    assert_eq!(x.uri, "ipfs://x");
}

#[test]
fn delete_absent_is_not_found() {
    let mut store = RecordStore::new(PROGRAM);
    assert_eq!(upsert(&mut store, OWNER_Y, [1u8; 32], "u"), Ok(()));
    let x_addr = address_of(&OWNER_X);
    assert_eq!(delete(&mut store, OWNER_X, x_addr), Err(ZeroTrustError::NotFound));
    assert_eq!(store.len(), 1);
    assert!(store.get(&address_of(&OWNER_Y)).is_some());
}

#[test]
fn delete_by_other_signer_is_not_authorized() {
    let mut store = RecordStore::new(PROGRAM);
    let x_addr = address_of(&OWNER_X);
    assert_eq!(upsert(&mut store, OWNER_X, [2u8; 32], "ipfs://keep"), Ok(()));
    assert_eq!(delete(&mut store, OWNER_Y, x_addr), Err(ZeroTrustError::NotAuthorized));
    let x = store.get(&x_addr).unwrap();
    assert_eq!(x.owner, OWNER_X);
    assert_eq!(x.data_hash, [2u8; 32]);
    assert_eq!(x.uri, "ipfs://keep");
}

#[test]
fn record_can_be_recreated_after_delete() {
    let mut store = RecordStore::new(PROGRAM);
    let addr = address_of(&OWNER_X);
    assert_eq!(upsert(&mut store, OWNER_X, [1u8; 32], "ipfs://a"), Ok(()));
    assert_eq!(delete(&mut store, OWNER_X, addr), Ok(77 + 8));
    assert_eq!(upsert(&mut store, OWNER_X, [2u8; 32], "ipfs://a-much-longer-locator"), Ok(()));
    let rec = store.get(&addr).unwrap();
    assert_eq!(rec.data_hash, [2u8; 32]);
    assert_eq!(rec.uri, "ipfs://a-much-longer-locator");
    assert_eq!(store.space_of(&addr), Some(77 + 28));
}

#[test]
fn longer_uri_exceeds_capacity() {
    let mut store = RecordStore::new(PROGRAM);
    let addr = address_of(&OWNER_X);
    assert_eq!(upsert(&mut store, OWNER_X, [1u8; 32], "ipfs://abc"), Ok(()));
    assert_eq!(
        upsert(&mut store, OWNER_X, [2u8; 32], "ipfs://abcd"),
        Err(ZeroTrustError::CapacityExceeded)
    );
    let rec = store.get(&addr).unwrap();
    assert_eq!(rec.data_hash, [1u8; 32]);
    assert_eq!(rec.uri, "ipfs://abc");
    assert_eq!(upsert(&mut store, OWNER_X, [3u8; 32], "ipfs://a"), Ok(()));
    assert_eq!(store.get(&addr).unwrap().uri, "ipfs://a");
    assert_eq!(store.space_of(&addr), Some(87));
}

#[test]
fn empty_uri_takes_fixed_space() {
    let mut store = RecordStore::new(PROGRAM);
    let addr = address_of(&OWNER_X);
    assert_eq!(upsert(&mut store, OWNER_X, [0u8; 32], ""), Ok(()));
    assert_eq!(store.space_of(&addr), Some(77));
    assert_eq!(store.get(&addr).unwrap().uri, "");
}

#[test]
fn uri_space_counts_bytes() {
    let mut store = RecordStore::new(PROGRAM);
    let addr = address_of(&OWNER_X);
    assert_eq!(upsert(&mut store, OWNER_X, [0u8; 32], "é"), Ok(()));
    assert_eq!(store.space_of(&addr), Some(79));
}

#[test]
fn delete_with_wrong_address_is_not_found() {
    let mut store = RecordStore::new(PROGRAM);
    assert_eq!(upsert(&mut store, OWNER_X, [1u8; 32], "x"), Ok(()));
    assert_eq!(delete(&mut store, OWNER_X, [0u8; 32]), Err(ZeroTrustError::NotFound));
    assert_eq!(store.len(), 1);
}

#[test]
fn keys_compare_bytewise() {
    assert!(same_key(&OWNER_X, &OWNER_X));
    assert!(!same_key(&OWNER_X, &OWNER_Y));
    assert_eq!(RecordStore::new(PROGRAM).program_id(), PROGRAM);
}
