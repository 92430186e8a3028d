use wi_mesh_login::credentials::{credential_target, encode_credentials, forget_credentials, load_credentials, save_credentials, parse_credentials, prompted_password, prompted_phone, CredentialError};
use wi_mesh_login::text::{ascii_lowercase, trimmed};

#[test]
fn record_roundtrip() {
    let record = encode_credentials("0901234567", "pa\nss");
    assert_eq!(record, "0901234567\npa\nss");
    let (phone, password) = parse_credentials(&record).unwrap();
    assert_eq!(phone, "0901234567");
    assert_eq!(password, "pa\nss");
}

#[test]
fn malformed_records() {
    assert!(matches!(parse_credentials("no-newline"), Err(CredentialError::Malformed)));
    assert!(matches!(parse_credentials(""), Err(CredentialError::Malformed)));
    assert!(matches!(parse_credentials("\npw"), Err(CredentialError::Empty)));
    assert!(matches!(parse_credentials("phone\n"), Err(CredentialError::Empty)));
}

#[test]
fn prompted_credentials() {
    assert_eq!(prompted_phone("  0901 \r\n").unwrap(), "0901");
    assert_eq!(prompted_password("secret").unwrap(), "secret");
    assert_eq!(prompted_password(" s ").unwrap(), " s ");
    assert!(matches!(prompted_phone(" \t\n"), Err(CredentialError::EmptyPhone)));
    assert!(matches!(prompted_password(""), Err(CredentialError::EmptyPassword)));
}

#[test]
fn trimming_matches_std() {
    for s in ["", "   ", " a b ", "\u{3000}x\u{2029}", "\u{85}\u{a0}y\u{205f}", "\u{200b}z", "q"] {
        assert_eq!(trimmed(s), s.trim(), "{s:?}");
    }
}

#[test]
fn lowercase_matches_std() {
    for s in ["ABC", "MiXeD-123", "ÄÖÜ", "already"] {
        assert_eq!(ascii_lowercase(s), s.to_ascii_lowercase());
    }
}

#[test]
fn store_roundtrip_when_available() {
    match save_credentials("0901234567", "pw\nwith newline") {
        Ok(()) => {
            let (phone, password) = load_credentials().unwrap();
            assert_eq!(phone, "0901234567");
            assert_eq!(password, "pw\nwith newline");
            forget_credentials().unwrap();
            assert!(matches!(load_credentials(), Err(CredentialError::Load(_))));
        }
        Err(e) => assert!(matches!(e, CredentialError::OpenStore(_) | CredentialError::Save(_))),
    }
}

#[test]
fn credential_entry_name() {
    assert_eq!(credential_target(), ("wi-mesh-login", "shop"));
}
