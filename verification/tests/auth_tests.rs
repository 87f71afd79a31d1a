use davbox::auth::{base64_decode, basic_auth_matches, password_from_clock, AuthConfig};

#[test]
fn validates_basic_auth() {
    let auth = AuthConfig {
        enabled: true,
        username: "davbox".to_string(),
        password: Some("secret".to_string()),
        password_env: None,
    };
    assert!(basic_auth_matches(Some("Basic ZGF2Ym94OnNlY3JldA=="), &auth));
    assert!(!basic_auth_matches(Some("Basic ZGF2Ym94Ondyb25n"), &auth));
}

#[test]
fn disabled_auth_lets_everything_through() {
    let auth = AuthConfig { enabled: false, ..AuthConfig::default() };
    assert!(basic_auth_matches(None, &auth));
    assert!(basic_auth_matches(Some("garbage"), &auth));
}

#[test]
fn enabled_auth_needs_a_basic_header() {
    let auth = AuthConfig {
        enabled: true,
        username: "davbox".to_string(),
        password: Some("secret".to_string()),
        password_env: None,
    };
    assert!(!basic_auth_matches(None, &auth));
    assert!(!basic_auth_matches(Some("Bearer ZGF2Ym94OnNlY3JldA=="), &auth));
    assert!(!basic_auth_matches(Some("Basic ***"), &auth));
    // "davboxsecret": no colon
    assert!(!basic_auth_matches(Some("Basic ZGF2Ym94c2VjcmV0"), &auth));
}

#[test]
fn auth_without_password_refuses() {
    let auth = AuthConfig {
        enabled: true,
        username: "davbox".to_string(),
        password: None,
        password_env: None,
    };
    assert!(!basic_auth_matches(Some("Basic ZGF2Ym94OnNlY3JldA=="), &auth));
}

#[test]
fn default_auth_is_enabled_for_davbox() {
    let auth = AuthConfig::default();
    assert!(auth.enabled);
    assert_eq!(auth.username, "davbox");
    assert_eq!(auth.password, None);
    assert_eq!(auth.password_env.as_deref(), Some("DAVBOX_PASSWORD"));
}

#[test]
fn base64_decodes_padded_text() {
    assert_eq!(base64_decode("aGVsbG8=").unwrap(), b"hello".to_vec());
    assert_eq!(base64_decode("aGVs bG8=").unwrap(), b"hello".to_vec());
    assert_eq!(base64_decode("").unwrap(), Vec::<u8>::new());
    assert_eq!(base64_decode("TWFu").unwrap(), b"Man".to_vec());
}

#[test]
fn base64_rejects_foreign_bytes() {
    assert_eq!(base64_decode("a$b").unwrap_err(), "Invalid base64");
}

#[test]
fn runtime_password_comes_from_environment() {
    let auth = AuthConfig::default();
    let env = vec![("DAVBOX_PASSWORD".to_string(), "from-env".to_string())];
    let filled = auth.with_runtime_password(&env);
    assert_eq!(filled.password.as_deref(), Some("from-env"));
}

#[test]
fn explicit_password_beats_environment() {
    let auth = AuthConfig { password: Some("given".to_string()), ..AuthConfig::default() };
    let env = vec![("DAVBOX_PASSWORD".to_string(), "from-env".to_string())];
    assert_eq!(auth.with_runtime_password(&env).password.as_deref(), Some("given"));
}

#[test]
fn generated_password_has_two_blocks_of_four_digits() {
    let auth = AuthConfig::default();
    let filled = auth.with_runtime_password(&[]);
    let p = filled.password.unwrap();
    assert_eq!(p.len(), 9);
    assert_eq!(&p[4..5], "-");
    assert!(p.chars().filter(|c| *c != '-').all(|c| c.is_ascii_digit()));
}

#[test]
fn password_from_clock_splits_eight_digits() {
    // 10_000_000 + (nanos % 89_999_999) with nanos = 1_234_567
    assert_eq!(password_from_clock(1_234_567), "1123-4567");
    assert_eq!(password_from_clock(0), "1000-0000");
}

#[test]
fn disabled_auth_keeps_its_password_unset() {
    let auth = AuthConfig { enabled: false, ..AuthConfig::default() };
    assert_eq!(auth.with_runtime_password(&[]).password, None);
}
