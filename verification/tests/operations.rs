use zaphenath::chain::derive_address;
use zaphenath::errors::{ClientError, ErrorKind};
use zaphenath::mirror::Mirror;
use zaphenath::network::build_network_context;
use zaphenath::ops::{
    normalize_secret, run_create_mock, run_delete_mock, run_ping_mock, run_remove_custodian_mock,
    run_set_custodian_mock, run_update_mock, ContractSpecs, KeyData,
};
use zaphenath::roles::Role;

// The well-known test secret 0x...01 and the address it derives to.
const SECRET_ONE: &str = "0000000000000000000000000000000000000000000000000000000000000001";
const ADDRESS_ONE: &str = "0x7e5f4552091a69125d5dfcb7b8c2659029395bdf";

fn test_specs() -> ContractSpecs {
    let ctx = build_network_context(Some("http://localhost:8545"), Some("sepolia"))
        .expect("missing network or rpc-url");
    let mut specs = ContractSpecs {
        ctx,
        contract_addr: String::from("0x0000000000000000000000000000000000000001"),
        priv_key_path: String::from("/dev/null"),
        priv_key: None,
    };
    specs.load_private_key_if_missing(SECRET_ONE);
    specs
}

#[test]
fn create_records_key_with_network_and_timeout() {
    // create key "k1" with timeout 600, network "sepolia", explicit endpoint
    let mut m = Mirror::new();
    run_create_mock(&mut m, &test_specs(), "k1", "00ffcc", 600).unwrap();
    assert_eq!(m.len(), 1);
    let rec = m.get_record("k1").expect("entry missing");
    assert_eq!(rec.key_id, "k1");
    assert_eq!(rec.timeout, 600);
    assert_eq!(rec.network.as_deref(), Some("sepolia"));
    assert_eq!(rec.rpc_url, "http://localhost:8545");
    assert!(rec.custodians.is_empty());
    assert_eq!(rec.data, None);
}

#[test]
fn created_owner_is_derived_from_the_private_key() {
    let mut m = Mirror::new();
    run_create_mock(&mut m, &test_specs(), "k1", "00ffcc", 600).unwrap();
    let rec = m.get_record("k1").unwrap();
    assert_eq!(rec.owner, ADDRESS_ONE);
    assert_eq!(derive_address(SECRET_ONE).as_deref(), Some(ADDRESS_ONE));
}

#[test]
fn ping_of_missing_key_fails_without_touching_the_mirror() {
    let mut m = Mirror::new();
    run_create_mock(&mut m, &test_specs(), "real", "aa", 60).unwrap();
    let before = m.clone();
    let e = run_ping_mock(&mut m, "ghost", 1700000000).unwrap_err();
    assert!(matches!(e, ClientError::KeyNotFound(_)));
    assert!(e.message().contains("not found"));
    assert_eq!(e.kind(), ErrorKind::Config);
    assert_eq!(m, before);
}

#[test]
fn ping_records_a_nondecreasing_timestamp() {
    let mut m = Mirror::new();
    run_create_mock(&mut m, &test_specs(), "k", "aa", 60).unwrap();
    run_ping_mock(&mut m, "k", 100).unwrap();
    assert_eq!(m.get_record("k").unwrap().last_ping_timestamp, Some(100));
    run_ping_mock(&mut m, "k", 200).unwrap();
    assert_eq!(m.get_record("k").unwrap().last_ping_timestamp, Some(200));
    // a clock that stepped backwards does not move the timestamp back
    run_ping_mock(&mut m, "k", 150).unwrap();
    assert_eq!(m.get_record("k").unwrap().last_ping_timestamp, Some(200));
}

#[test]
fn update_rewrites_data_and_timeout() {
    // create "k2", then update with new data and timeout 600
    let mut m = Mirror::new();
    run_create_mock(&mut m, &test_specs(), "k2", "abc123", 300).unwrap();
    run_update_mock(&mut m, "k2", "deadbeef", 600).unwrap();
    let rec = m.get_record("k2").unwrap();
    assert_eq!(rec.data.as_deref(), Some("deadbeef"));
    assert_eq!(rec.timeout, 600);
}

#[test]
fn update_of_missing_key_fails() {
    let mut m = Mirror::new();
    let e = run_update_mock(&mut m, "nonexistent_key", "deadbeef", 1000).unwrap_err();
    assert!(e.message().contains("not found"));
}

#[test]
fn delete_removes_the_entry_and_a_second_delete_fails() {
    // create "k3", delete "k3": gone; deleting again fails with "not found"
    let mut m = Mirror::new();
    run_create_mock(&mut m, &test_specs(), "k3", "aa", 60).unwrap();
    run_delete_mock(&mut m, "k3").unwrap();
    assert!(m.get_record("k3").is_none());
    assert_eq!(m.len(), 0);
    let e = run_delete_mock(&mut m, "k3").unwrap_err();
    assert!(e.message().contains("not found"));
}

#[test]
fn setting_a_custodian_twice_keeps_one_record_with_the_second_values() {
    let mut m = Mirror::new();
    run_create_mock(&mut m, &test_specs(), "k", "aa", 3600).unwrap();
    let addr = "0x1234567890123456789012345678901234567890";
    let first = run_set_custodian_mock(&mut m, "k", addr, "Reader", true).unwrap();
    assert!(!first); // added, not overwritten
    let second = run_set_custodian_mock(&mut m, "k", addr, "Writer", false).unwrap();
    assert!(second); // overwritten in place
    let rec = m.get_record("k").unwrap();
    assert_eq!(rec.custodians.len(), 1);
    assert_eq!(rec.custodians[0].address, addr);
    assert_eq!(rec.custodians[0].role, Role::Writer);
    assert!(!rec.custodians[0].can_ping);
}

#[test]
fn custodian_addresses_are_stored_lower_case() {
    let mut m = Mirror::new();
    run_create_mock(&mut m, &test_specs(), "k", "aa", 3600).unwrap();
    run_set_custodian_mock(&mut m, "k", "0xABCDEF0123456789ABCDEF0123456789ABCDEF01", "reader", true)
        .unwrap();
    let rec = m.get_record("k").unwrap();
    assert_eq!(rec.custodians[0].address, "0xabcdef0123456789abcdef0123456789abcdef01");
}

#[test]
fn removing_an_absent_custodian_succeeds_without_changes() {
    let mut m = Mirror::new();
    run_create_mock(&mut m, &test_specs(), "k", "aa", 3600).unwrap();
    run_set_custodian_mock(&mut m, "k", "0x1234567890123456789012345678901234567890", "reader", true)
        .unwrap();
    let before = m.clone();
    let removed = run_remove_custodian_mock(&mut m, "k", "0xffffffffffffffffffffffffffffffffffffffff")
        .unwrap();
    assert!(!removed);
    assert_eq!(m, before);
    // and removing the present one does take it out
    let removed = run_remove_custodian_mock(&mut m, "k", "0x1234567890123456789012345678901234567890")
        .unwrap();
    assert!(removed);
    assert!(m.get_record("k").unwrap().custodians.is_empty());
}

#[test]
fn set_custodian_on_missing_key_fails_before_anything_else() {
    let mut m = Mirror::new();
    let e = run_set_custodian_mock(
        &mut m,
        "nonexistent_key_for_custodian",
        "0xaaaaaaaaaaaaaaaaaaaaaaaaaaaaaaaaaaaaaaaa",
        "Reader",
        false,
    )
    .unwrap_err();
    assert!(e.message().contains("not found"));
    assert_eq!(m.len(), 0);
}

#[test]
fn invalid_role_is_rejected() {
    let mut m = Mirror::new();
    run_create_mock(&mut m, &test_specs(), "k", "aa", 60).unwrap();
    let e = run_set_custodian_mock(&mut m, "k", "0xaaaaaaaaaaaaaaaaaaaaaaaaaaaaaaaaaaaaaaaa", "boss", true)
        .unwrap_err();
    assert!(matches!(e, ClientError::InvalidRole(_)));
    assert_eq!(e.kind(), ErrorKind::Validation);
}

#[test]
fn invalid_hex_data_is_rejected() {
    let mut m = Mirror::new();
    let e = run_create_mock(&mut m, &test_specs(), "k", "zz", 60).unwrap_err();
    assert!(matches!(e, ClientError::InvalidHex(_)));
    let e = run_create_mock(&mut m, &test_specs(), "k", "abc", 60).unwrap_err();
    assert!(matches!(e, ClientError::InvalidHex(_)));
    assert_eq!(m.len(), 0);
}

#[test]
fn duplicate_create_reports_a_conflict() {
    let mut m = Mirror::new();
    run_create_mock(&mut m, &test_specs(), "k", "aa", 60).unwrap();
    let e = run_create_mock(&mut m, &test_specs(), "k", "bb", 90).unwrap_err();
    assert!(matches!(e, ClientError::DuplicateKey(_)));
    assert_eq!(m.len(), 1);
}

#[test]
fn explicit_owner_wins_over_derivation_and_is_lowered() {
    let mut m = Mirror::new();
    let specs = test_specs();
    let key_data = KeyData {
        id: String::from("key_1"),
        owner: Some(String::from("0x123ABC")),
        timeout: 42,
    };
    zaphenath::ops::commit_create(&mut m, &specs, &key_data).unwrap();
    let rec = m.get_record("key_1").unwrap();
    assert_eq!(rec.owner, "0x123abc");
    assert_eq!(rec.timeout, 42);
}

#[test]
fn rejected_key_material_fails_the_create() {
    // derivation is a function of the material alone: rejected forms
    // include garbage, the wrong length, and the zero key
    assert_eq!(derive_address(""), None);
    assert_eq!(derive_address("zz"), None);
    assert_eq!(
        derive_address("0000000000000000000000000000000000000000000000000000000000000000"),
        None
    );
    let mut specs = test_specs();
    specs.priv_key = Some(String::from("not hex at all"));
    let mut m = Mirror::new();
    let e = run_create_mock(&mut m, &specs, "k", "aa", 60).unwrap_err();
    assert!(matches!(e, ClientError::InvalidPrivateKey(_)));
    assert_eq!(m.len(), 0);
    // and with no material cached at all
    specs.priv_key = None;
    let e = run_create_mock(&mut m, &specs, "k", "aa", 60).unwrap_err();
    assert!(matches!(e, ClientError::InvalidPrivateKey(_)));
}

#[test]
fn unstorable_key_entries_are_rejected() {
    let mut m = Mirror::new();
    // an empty id can never be a primary key
    let e = run_create_mock(&mut m, &test_specs(), "", "aa", 60).unwrap_err();
    assert!(matches!(e, ClientError::InvalidField(_)));
    // a quote would corrupt the persisted mirror text
    let e = run_create_mock(&mut m, &test_specs(), "bad\"id", "aa", 60).unwrap_err();
    assert!(matches!(e, ClientError::InvalidField(_)));
    assert_eq!(e.kind(), ErrorKind::Validation);
    assert_eq!(m.len(), 0);
}

#[test]
fn secret_material_is_normalized_once() {
    assert_eq!(normalize_secret(" 0xABc1\n"), "ABc1");
    assert_eq!(normalize_secret("0x0xdead"), "dead");
    assert_eq!(normalize_secret("plain"), "plain");
    assert_eq!(normalize_secret("  \t\r\n"), "");
    let mut specs = test_specs();
    let cached = specs.priv_key.clone();
    specs.load_private_key_if_missing("0xother");
    assert_eq!(specs.priv_key, cached); // never re-read after first load
}
