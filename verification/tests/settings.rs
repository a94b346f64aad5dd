use multimint::client::ClientSecret;
use multimint::config::{
    create_root_secret, read_port, read_secret, Config, ConfigError, DEFAULT_PORT,
};
use multimint::federation::FederationId;
use multimint::types::{ClientReading, InfoResponse, Tier, TieredSummary};
use std::path::PathBuf;

const INVITE: &str = "fed11qgqpu8rhwden5te0vejkg6tdd9h8gepwd4cxcumxv4jzuen0duhsqqfqh6nl7sgk72caxfx8khtfnn8y436q3nhyrkev3qp8ugdhdllnh86qmp42pm";

const INVITE_FEDERATION: &str = "bea7ff4116f2b1d324c7b5d699cce4ac7408cee41db2c88027e21b76fff3b9f4";

fn settings_with(invite: &str, port: Option<&str>, secret: &str) -> Result<Config, ConfigError> {
    Config::from_env(
        PathBuf::from("/data/fm"),
        invite.to_string(),
        "127.0.0.1".to_string(),
        port.map(|text| text.to_string()),
        "hunter2".to_string(),
        secret.to_string(),
    )
}

fn settings(port: Option<&str>, secret: &str) -> Result<Config, ConfigError> {
    settings_with(INVITE, port, secret)
}

/// The bytes that a root secret gives, by which two of them are compared.
fn fingerprint(secret: &fedimint_client::derivable_secret::DerivableSecret) -> [u8; 32] {
    secret.to_random_bytes::<32>()
}

fn root_of(bytes: [u8; 64]) -> fedimint_client::derivable_secret::DerivableSecret {
    <fedimint_client::secret::PlainRootSecretStrategy as fedimint_client::secret::RootSecretStrategy>::to_root_secret(&bytes)
}

#[test]
fn port_is_read_from_decimal_digits() {
    assert_eq!(read_port("3000"), Some(3000));
    assert_eq!(read_port("0"), Some(0));
    assert_eq!(read_port("80"), Some(80));
    assert_eq!(read_port("65535"), Some(65535));
    assert_eq!(read_port("+443"), Some(443));
    assert_eq!(read_port("0080"), Some(80));
    assert_eq!(read_port("000000000000000000000000000065535"), Some(65535));
}

#[test]
fn port_agrees_with_the_standard_reading() {
    for text in [
        "3000", "0", "65535", "65536", "+1", "+", "", "-1", "1 ", " 1", "1a", "0x10", "99999",
        "4294967296", "00", "+0", "++1", "1+", "18446744073709551616", "６", "1_000", "655350",
    ] {
        assert_eq!(read_port(text), text.parse::<u16>().ok(), "port text {text:?}");
    }
}

#[test]
fn port_that_is_no_number_is_refused() {
    assert_eq!(read_port(""), None);
    assert_eq!(read_port("+"), None);
    assert_eq!(read_port("-1"), None);
    assert_eq!(read_port("65536"), None);
    assert_eq!(read_port("99999999999999999999"), None);
    assert_eq!(read_port("80 "), None);
    assert_eq!(read_port("http"), None);
}

#[test]
fn settings_take_the_default_port() {
    let secret = "s".repeat(64);
    let config = settings(None, &secret).unwrap();
    assert_eq!(config.port, 3000);
    assert_eq!(DEFAULT_PORT, 3000);
    assert_eq!(config.host, "127.0.0.1");
    assert_eq!(config.password, "hunter2");
    assert_eq!(config.fm_db_path, PathBuf::from("/data/fm"));
    assert_eq!(config.invite_code.code(), INVITE);
    assert_eq!(
        Some(config.invite_code.federation_id()),
        FederationId::from_str(INVITE_FEDERATION)
    );
    assert_eq!(fingerprint(&config.root_secret), fingerprint(&root_of([b's'; 64])));
    assert_ne!(fingerprint(&config.root_secret), fingerprint(&root_of([b't'; 64])));
}

#[test]
fn settings_with_a_bad_invite_code_are_refused() {
    let secret = "s".repeat(64);
    assert_eq!(
        settings_with("not an invite", None, &secret).err(),
        Some(ConfigError::InvalidInviteCode)
    );
    assert_eq!(settings_with("", None, &secret).err(), Some(ConfigError::InvalidInviteCode));
    assert_eq!(
        settings_with("not an invite", Some("eighty"), "short").err(),
        Some(ConfigError::InvalidInviteCode)
    );
}

#[test]
fn settings_take_the_port_that_is_set() {
    let secret = "s".repeat(64);
    assert_eq!(settings(Some("8080"), &secret).unwrap().port, 8080);
}

#[test]
fn settings_with_a_bad_port_are_refused() {
    let secret = "s".repeat(64);
    assert_eq!(settings(Some("eighty"), &secret).err(), Some(ConfigError::InvalidPort));
    assert_eq!(settings(Some("70000"), &secret).err(), Some(ConfigError::InvalidPort));
    assert_eq!(settings(Some("70000"), "short").err(), Some(ConfigError::InvalidPort));
}

#[test]
fn settings_with_a_secret_of_other_length_are_refused() {
    assert_eq!(settings(None, "").err(), Some(ConfigError::InvalidSecret));
    assert_eq!(settings(None, &"s".repeat(63)).err(), Some(ConfigError::InvalidSecret));
    assert_eq!(settings(Some("1"), &"s".repeat(65)).err(), Some(ConfigError::InvalidSecret));
    assert_eq!(settings(None, &"é".repeat(64)).err(), Some(ConfigError::InvalidSecret));
    assert!(settings(None, &"é".repeat(32)).is_ok());
}

#[test]
fn secret_is_read_from_a_text_of_64_bytes() {
    assert_eq!(read_secret(&"k".repeat(64)), Some(ClientSecret([b'k'; 64])));
    assert_eq!(read_secret(&"k".repeat(63)), None);
    assert_eq!(read_secret(&"k".repeat(65)), None);
    assert_eq!(read_secret(""), None);
    let accented = read_secret(&"é".repeat(32)).unwrap();
    assert_eq!(accented.0.to_vec(), [0xc3u8, 0xa9].repeat(32));
}

#[test]
fn root_secret_is_derived_from_the_bytes_of_its_text() {
    let text: String = (0..64u8).map(|n| (b'!' + n) as char).collect();
    let mut bytes = [0u8; 64];
    bytes.copy_from_slice(text.as_bytes());
    let secret = create_root_secret(text);
    assert_eq!(fingerprint(&secret), fingerprint(&root_of(bytes)));
    assert_eq!(fingerprint(&ClientSecret(bytes).to_root_secret()), fingerprint(&root_of(bytes)));
    let other = create_root_secret("x".repeat(64));
    assert_ne!(fingerprint(&other), fingerprint(&secret));
    assert_ne!(fingerprint(&secret).to_vec(), bytes[..32].to_vec());
}

#[test]
fn summary_counts_value_and_notes() {
    let summary = TieredSummary::new(vec![
        Tier { denomination_msat: 1, count: 4 },
        Tier { denomination_msat: 2, count: 0 },
        Tier { denomination_msat: 1_024, count: 3 },
        Tier { denomination_msat: 1_048_576, count: 1 },
    ])
    .unwrap();
    assert_eq!(summary.total_amount(), 4 + 3 * 1_024 + 1_048_576);
    assert_eq!(summary.count_items(), 8);
    assert_eq!(summary.count_tiers(), 4);
    assert_eq!(summary.tier(2), Tier { denomination_msat: 1_024, count: 3 });
    let empty = TieredSummary::new(vec![]).unwrap();
    assert_eq!(empty.total_amount(), 0);
    assert_eq!(empty.count_items(), 0);
    assert_eq!(empty.count_tiers(), 0);
}

#[test]
fn summary_takes_the_largest_total_that_fits() {
    let summary = TieredSummary::new(vec![
        Tier { denomination_msat: 1, count: 1 },
        Tier { denomination_msat: u64::MAX - 1, count: 1 },
    ])
    .unwrap();
    assert_eq!(summary.total_amount(), u64::MAX);
    assert_eq!(summary.count_items(), 2);
}

#[test]
fn summary_that_does_not_fit_is_refused() {
    assert_eq!(
        TieredSummary::new(vec![
            Tier { denomination_msat: 2, count: 1 },
            Tier { denomination_msat: u64::MAX - 1, count: 1 },
        ]),
        None
    );
    assert_eq!(TieredSummary::new(vec![Tier { denomination_msat: u64::MAX, count: 2 }]), None);
    assert_eq!(
        TieredSummary::new(vec![
            Tier { denomination_msat: 0, count: usize::MAX },
            Tier { denomination_msat: 1, count: 1 },
        ]),
        None
    );
    assert_eq!(
        TieredSummary::new(vec![
            Tier { denomination_msat: u64::MAX, count: 2 },
            Tier { denomination_msat: 1, count: 1 },
        ]),
        None
    );
}

#[test]
fn summary_with_denominations_out_of_order_is_refused() {
    assert_eq!(
        TieredSummary::new(vec![
            Tier { denomination_msat: 2, count: 1 },
            Tier { denomination_msat: 1, count: 1 },
        ]),
        None
    );
    assert_eq!(
        TieredSummary::new(vec![
            Tier { denomination_msat: 2, count: 1 },
            Tier { denomination_msat: 2, count: 1 },
        ]),
        None
    );
    assert_eq!(
        TieredSummary::new(vec![
            Tier { denomination_msat: 1, count: 1 },
            Tier { denomination_msat: 4, count: 1 },
            Tier { denomination_msat: 2, count: 1 },
        ]),
        None
    );
}

#[test]
fn info_holds_the_totals_of_what_was_read() {
    let tiers =
        vec![Tier { denomination_msat: 512, count: 2 }, Tier { denomination_msat: 4_096, count: 1 }];
    let info = InfoResponse::new(
        FederationId([3; 32]),
        ClientReading {
            network: "regtest".to_string(),
            meta: vec![],
            summary: TieredSummary::new(tiers.clone()).unwrap(),
        },
    );
    assert_eq!(info, InfoResponse {
        federation_id: FederationId([3; 32]),
        network: "regtest".to_string(),
        meta: vec![],
        total_amount_msat: 5_120,
        total_num_notes: 3,
        denominations_msat: TieredSummary::new(tiers).unwrap(),
    });
}
