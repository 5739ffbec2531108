use zaphenath::json::{parse_mirror, render_mirror};
use zaphenath::mirror::Mirror;
use zaphenath::records::{CustodianRecord, KeyRecord};
use zaphenath::roles::Role;

fn sample_record() -> KeyRecord {
    KeyRecord {
        key_id: String::from("abc123"),
        contract_address: String::from("0xdeadbeef"),
        private_key_path: String::from("/fake/key"),
        owner: String::from("0x123abc"),
        network: None,
        rpc_url: String::from("http://localhost:8545"),
        timeout: 123,
        data: None,
        last_ping_timestamp: None,
        custodians: Vec::new(),
    }
}

#[test]
fn test_write_and_read_config_roundtrip() {
    let mut mirror = Mirror::new();
    mirror.insert(sample_record()).expect("Failed to write config");
    let text = render_mirror(&mirror);
    let result = parse_mirror(&text).expect("Failed to read config");
    assert_eq!(result, mirror);
}

#[test]
fn roundtrip_with_all_fields_set() {
    let mut mirror = Mirror::new();
    let rec = KeyRecord {
        key_id: String::from("k-full"),
        contract_address: String::from("0x0000000000000000000000000000000000000001"),
        private_key_path: String::from("/tmp/secret"),
        owner: String::from("0x7e5f4552091a69125d5dfcb7b8c2659029395bdf"),
        network: Some(String::from("sepolia")),
        rpc_url: String::from("https://sepolia.example"),
        timeout: 18446744073709551615,
        data: Some(String::from("00ffcc")),
        last_ping_timestamp: Some(1700000000),
        custodians: vec![
            CustodianRecord {
                address: String::from("0x1234567890123456789012345678901234567890"),
                role: Role::Reader,
                can_ping: true,
            },
            CustodianRecord {
                address: String::from("0xaaaaaaaaaaaaaaaaaaaaaaaaaaaaaaaaaaaaaaaa"),
                role: Role::NoRole,
                can_ping: false,
            },
        ],
    };
    mirror.insert(rec).unwrap();
    mirror
        .insert(KeyRecord {
            key_id: String::from("second"),
            ..sample_record()
        })
        .unwrap();
    let text = render_mirror(&mirror);
    let parsed = parse_mirror(&text).unwrap();
    assert_eq!(parsed, mirror);
}

#[test]
fn empty_mirror_renders_and_parses() {
    let mirror = Mirror::new();
    let text = render_mirror(&mirror);
    assert_eq!(text, "[]");
    let parsed = parse_mirror(&text).unwrap();
    assert_eq!(parsed.len(), 0);
}

#[test]
fn rendering_is_the_canonical_text() {
    let mut mirror = Mirror::new();
    mirror.insert(sample_record()).unwrap();
    let text = render_mirror(&mirror);
    let expected = "[{\n\"key_id\": \"abc123\",\n\"contract_address\": \"0xdeadbeef\",\n\"private_key_path\": \"/fake/key\",\n\"owner\": \"0x123abc\",\n\"network\": null,\n\"rpc_url\": \"http://localhost:8545\",\n\"timeout\": 123,\n\"data\": null,\n\"last_ping_timestamp\": null,\n\"custodians\": []\n}]";
    assert_eq!(text, expected);
}

#[test]
fn parse_rejects_malformed_text() {
    assert!(parse_mirror("").is_err());
    assert!(parse_mirror("{}").is_err());
    assert!(parse_mirror("[ ]").is_err());
    assert!(parse_mirror("[{}]").is_err());
    let mut mirror = Mirror::new();
    mirror.insert(sample_record()).unwrap();
    let text = render_mirror(&mirror);
    let truncated = &text[..text.len() - 1];
    assert!(parse_mirror(truncated).is_err());
    let padded = format!("{} ", text);
    assert!(parse_mirror(&padded).is_err());
}

#[test]
fn parse_rejects_duplicate_ids() {
    let mut mirror = Mirror::new();
    mirror.insert(sample_record()).unwrap();
    let text = render_mirror(&mirror);
    // splice the single record in twice
    let inner = &text[1..text.len() - 1];
    let doubled = format!("[{},\n{}]", inner, inner);
    assert!(parse_mirror(&doubled).is_err());
}

#[test]
fn duplicate_insert_is_refused() {
    let mut mirror = Mirror::new();
    mirror.insert(sample_record()).unwrap();
    let e = mirror.insert(sample_record()).unwrap_err();
    assert!(e.message().contains("already exists"));
    assert_eq!(mirror.len(), 1);
}
