use zaphenath::chain::{clamp_timestamp, key_hash, now_mirror_timestamp};
use zaphenath::daemon::{run_cycle_mock, should_continue};
use zaphenath::errors::ClientError;
use zaphenath::gas::{GasBuffer, GasSpecs};
use zaphenath::hexdata::{decode_hex, encode_hex};
use zaphenath::mirror::Mirror;
use zaphenath::network::{build_network_context, resolve_rpc_url, NetworkArgs};
use zaphenath::ops::{run_create_mock, ContractSpecs};
use zaphenath::roles::Role;
use zaphenath::txflow::{start_tx, tx_step, TxAction, TxEvent, TxFailure, TxState};

const SECRET_ONE: &str = "0000000000000000000000000000000000000000000000000000000000000001";

fn specs() -> ContractSpecs {
    let ctx = build_network_context(Some("http://localhost:8545"), None).unwrap();
    let mut s = ContractSpecs {
        ctx,
        contract_addr: String::from("0x0000000000000000000000000000000000000001"),
        priv_key_path: String::from("/dev/null"),
        priv_key: None,
    };
    s.load_private_key_if_missing(SECRET_ONE);
    s
}

#[test]
fn bounded_daemon_runs_exactly_five_cycles_and_timestamps_never_decrease() {
    let mut m = Mirror::new();
    run_create_mock(&mut m, &specs(), "daemon_key", "feedbeef", 60).unwrap();
    let shots = Some(5u64);
    let mut completed: u64 = 0;
    let mut attempts: usize = 0;
    let mut last_seen: u64 = 0;
    let mut now: u64 = 1700000000;
    while should_continue(&shots, completed) {
        attempts += run_cycle_mock(&mut m, now);
        let ts = m.get_record("daemon_key").unwrap().last_ping_timestamp.unwrap();
        assert!(ts >= last_seen);
        last_seen = ts;
        completed += 1;
        now += 7;
    }
    assert_eq!(completed, 5);
    assert_eq!(attempts, 5); // one ping attempt per cycle for the single key
    assert!(m.get_record("daemon_key").unwrap().last_ping_timestamp.is_some());
}

#[test]
fn unbounded_daemon_always_continues() {
    assert!(should_continue(&None, 0));
    assert!(should_continue(&None, u64::MAX));
    assert!(should_continue(&Some(3), 2));
    assert!(!should_continue(&Some(3), 3));
}

#[test]
fn a_cycle_pings_every_mirrored_key() {
    let mut m = Mirror::new();
    let s = specs();
    run_create_mock(&mut m, &s, "a", "aa", 60).unwrap();
    run_create_mock(&mut m, &s, "b", "bb", 60).unwrap();
    run_create_mock(&mut m, &s, "c", "cc", 60).unwrap();
    let attempts = run_cycle_mock(&mut m, 42);
    assert_eq!(attempts, 3);
    for id in ["a", "b", "c"] {
        assert_eq!(m.get_record(id).unwrap().last_ping_timestamp, Some(42));
    }
}

#[test]
fn declined_confirmation_never_submits() {
    let gas = GasSpecs { gas_limit: None, gas_buffer: Some(GasBuffer { milli: 1500 }) };
    let (st, action) = start_tx(&gas, false);
    assert_eq!(action, TxAction::Estimate);
    let (st, action) = tx_step(&st, &TxEvent::EstimateOk(100));
    assert_eq!(action, TxAction::Prompt { estimate: 100, buffered: 150 });
    let (st, action) = tx_step(&st, &TxEvent::ConfirmAnswer(false));
    assert_eq!(action, TxAction::Fail(TxFailure::DeclinedByUser));
    assert_eq!(st, TxState::Aborted);
    // whatever comes later, the flow stays aborted and never submits
    for e in [TxEvent::Submitted, TxEvent::EstimateOk(7), TxEvent::ConfirmAnswer(true)] {
        let (st2, action) = tx_step(&st, &e);
        assert_eq!(st2, TxState::Aborted);
        assert_eq!(action, TxAction::Fail(TxFailure::DeclinedByUser));
    }
    assert_eq!(TxFailure::DeclinedByUser.to_error(), ClientError::UserAbort);
}

#[test]
fn accepted_confirmation_submits_with_the_buffered_gas() {
    let gas = GasSpecs { gas_limit: None, gas_buffer: Some(GasBuffer { milli: 1200 }) };
    let (st, _) = start_tx(&gas, false);
    let (st, _) = tx_step(&st, &TxEvent::EstimateOk(1000));
    let (st, action) = tx_step(&st, &TxEvent::ConfirmAnswer(true));
    assert_eq!(action, TxAction::Submit { gas: Some(1200) });
    let (st, action) = tx_step(&st, &TxEvent::Submitted);
    assert_eq!(action, TxAction::Poll);
    let (st, action) = tx_step(&st, &TxEvent::ReceiptPending);
    assert_eq!(action, TxAction::Poll);
    let (st, action) = tx_step(&st, &TxEvent::ReceiptStatus(Some(1)));
    assert_eq!(action, TxAction::Succeed);
    assert_eq!(st, TxState::Confirmed);
}

#[test]
fn receipt_outcomes_classify_the_transaction() {
    let (st, action) = tx_step(&TxState::Pending, &TxEvent::ReceiptStatus(Some(0)));
    assert_eq!(st, TxState::Failed);
    assert_eq!(action, TxAction::Fail(TxFailure::Reverted));
    assert_eq!(TxFailure::Reverted.to_error(), ClientError::ChainReverted);
    let (st, action) = tx_step(&TxState::Pending, &TxEvent::ReceiptStatus(None));
    assert_eq!(st, TxState::Unknown);
    assert_eq!(action, TxAction::Fail(TxFailure::StatusUnknown));
    assert_eq!(TxFailure::StatusUnknown.to_error(), ClientError::ChainStatusUnknown);
}

#[test]
fn explicit_gas_limit_submits_verbatim_without_estimation() {
    let gas = GasSpecs { gas_limit: Some(30000), gas_buffer: Some(GasBuffer { milli: 1200 }) };
    let (_, action) = start_tx(&gas, false);
    assert_eq!(action, TxAction::Submit { gas: Some(30000) });
    // no limit, no buffer, auto-confirm: the gas field is omitted
    let gas = GasSpecs { gas_limit: None, gas_buffer: None };
    let (_, action) = start_tx(&gas, true);
    assert_eq!(action, TxAction::Submit { gas: None });
}

#[test]
fn key_hash_matches_the_documented_digest() {
    // keccak256("test"), independently known
    let h = key_hash("test");
    assert_eq!(
        encode_hex(&h),
        "9c22ff5f21f0b81b113e63f7db6da94fedef11b2119b4088b89664fb9a3cb658"
    );
    assert_eq!(h.len(), 32);
    assert_ne!(key_hash("test"), key_hash("test2"));
}

#[test]
fn hex_payloads_decode_and_encode() {
    assert_eq!(decode_hex("00ffcc").unwrap(), vec![0x00, 0xff, 0xcc]);
    assert_eq!(decode_hex("DEADbeef").unwrap(), vec![0xde, 0xad, 0xbe, 0xef]);
    assert_eq!(decode_hex("").unwrap(), Vec::<u8>::new());
    assert!(decode_hex("abc").is_err());
    assert!(decode_hex("zz").is_err());
    assert_eq!(encode_hex(&vec![0x48, 0x65, 0x6c]), "48656c");
}

#[test]
fn network_names_resolve_like_the_table() {
    assert_eq!(resolve_rpc_url("localhost").as_deref(), Some("http://localhost:8545"));
    assert_eq!(
        resolve_rpc_url("sepolia").as_deref(),
        Some("https://sepolia.infura.io/v3/YOUR_PROJECT_ID")
    );
    assert!(resolve_rpc_url("mainnet").is_some());
    assert!(resolve_rpc_url("goerli").is_some());
    assert!(resolve_rpc_url("devnet").is_none());
}

#[test]
fn context_prefers_the_explicit_endpoint() {
    let ctx = build_network_context(Some("http://node:1234"), Some("sepolia")).unwrap();
    assert_eq!(ctx.rpc_url, "http://node:1234");
    assert_eq!(ctx.network.as_deref(), Some("sepolia"));
    let ctx = build_network_context(None, Some("localhost")).unwrap();
    assert_eq!(ctx.rpc_url, "http://localhost:8545");
    assert!(build_network_context(None, Some("nowhere")).is_err());
    assert!(build_network_context(None, None).is_err());
    let args = NetworkArgs {
        network: Some(String::from("sepolia")),
        rpc_url: Some(String::from("http://node:1234")),
    };
    let ctx = args.resolve().unwrap();
    assert_eq!(ctx.rpc_url, "http://node:1234");
}

#[test]
fn roles_map_to_wire_codes_both_ways() {
    assert_eq!(Role::Owner.to_wire(), 0);
    assert_eq!(Role::Writer.to_wire(), 1);
    assert_eq!(Role::Reader.to_wire(), 2);
    assert_eq!(Role::NoRole.to_wire(), 3);
    for code in 0u8..4 {
        let role = Role::from_wire(code).unwrap();
        assert_eq!(role.to_wire(), code);
    }
    assert!(Role::from_wire(4).is_none());
    assert_eq!(Role::parse_role("WRITER").unwrap(), Role::Writer);
    assert_eq!(Role::parse_role("None").unwrap(), Role::NoRole);
    assert!(Role::parse_role("boss").is_err());
    assert_eq!(Role::Reader.label(), "reader");
}

#[test]
fn clock_readings_clamp_to_the_epoch() {
    assert_eq!(clamp_timestamp(-5), 0);
    assert_eq!(clamp_timestamp(0), 0);
    assert_eq!(clamp_timestamp(1700000000), 1700000000);
    // the live reading is well after the epoch and does not panic
    assert!(now_mirror_timestamp() > 1600000000);
}
