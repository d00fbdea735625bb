use secpass::totp::{
    generate_code, generate_code_at, normalize_secret, percent_decode, seconds_remaining, seconds_remaining_at,
    validate_secret, candidate_secret, TotpError,
};

#[test]
fn accepts_common_base32_secret() {
    assert_eq!(
        normalize_secret("jbswy3dpehpk3pxp"),
        Some("JBSWY3DPEHPK3PXP".to_string())
    );
}

#[test]
fn accepts_otpauth_uri() {
    let uri = "otpauth://totp/Example:alice?secret=jbswy3dpehpk3pxp&issuer=Example";
    assert_eq!(
        normalize_secret(uri),
        Some("JBSWY3DPEHPK3PXP".to_string())
    );
}

#[test]
fn rejects_too_short_secret() {
    assert!(!validate_secret("JBSWY3DPEH"));
}

#[test]
fn normalizing_strips_whitespace_and_uppercases() {
    assert_eq!(
        normalize_secret("  jbsw y3dp\tehpk 3pxp \n"),
        Some("JBSWY3DPEHPK3PXP".to_string())
    );
}

#[test]
fn normalizing_is_idempotent() {
    let once = normalize_secret("otpauth://totp/x?SECRET=jbsw%20y3dp+ehpk3pxp").unwrap();
    assert_eq!(once, "JBSWY3DPEHPK3PXP");
    assert_eq!(normalize_secret(&once), Some(once.clone()));
}

#[test]
fn otpauth_without_secret_is_refused() {
    assert_eq!(normalize_secret("otpauth://totp/x?issuer=Example"), None);
    assert_eq!(normalize_secret("otpauth://totp/x"), None);
    assert_eq!(normalize_secret("OTPAUTH://totp/x?secretx=JBSWY3DPEHPK3PXP"), None);
}

#[test]
fn first_secret_pair_wins_and_pairs_without_value_are_skipped() {
    assert_eq!(
        candidate_secret("otpauth://t/x?flag&secret=abc&secret=def"),
        Some("ABC".to_string())
    );
}

#[test]
fn non_base32_or_empty_is_refused() {
    assert_eq!(normalize_secret(""), None);
    assert_eq!(normalize_secret("   "), None);
    assert_eq!(normalize_secret("JBSWY3DPEHPK3PX1"), None);
    assert_eq!(normalize_secret("JBSWY3DPEHPK3PXP===="), None);
}

#[test]
fn secret_length_boundary() {
    // 15 Base32 characters decode to 9 bytes, 16 to 10 bytes.
    assert!(!validate_secret("JBSWY3DPEHPK3PX"));
    assert!(validate_secret("JBSWY3DPEHPK3PXP"));
}

#[test]
fn percent_decoding() {
    assert_eq!(percent_decode("a%20b+c"), Some("a b c".to_string()));
    assert_eq!(percent_decode("%4A%4b"), Some("JK".to_string()));
    assert_eq!(percent_decode("%4"), None);
    assert_eq!(percent_decode("%zz"), None);
    assert_eq!(percent_decode("%ff"), None);
    assert_eq!(percent_decode(""), Some(String::new()));
}

#[test]
fn code_needs_a_128_bit_secret() {
    // Accepted as a secret (10 bytes), but too short for code generation.
    assert!(matches!(generate_code("JBSWY3DPEHPK3PXP"), Err(TotpError::InvalidSecret)));
    assert!(matches!(generate_code("nonsense"), Err(TotpError::InvalidSecret)));
    let code = generate_code("JBSWY3DPEHPK3PXPJBSWY3DPEHPK3PXP").unwrap();
    assert_eq!(code.len(), 6);
    assert!(code.bytes().all(|b| b.is_ascii_digit()));
}

#[test]
fn codes_match_the_rfc_6238_sha1_vectors() {
    // The RFC 6238 test key "12345678901234567890" in Base32.
    let key = "GEZDGNBVGY3TQOJQGEZDGNBVGY3TQOJQ";
    assert_eq!(generate_code_at(key, 59).unwrap(), "287082");
    assert_eq!(generate_code_at(key, 1_111_111_109).unwrap(), "081804");
    assert_eq!(generate_code_at(key, 1_234_567_890).unwrap(), "005924");
    assert_eq!(generate_code_at(key, 2_000_000_000).unwrap(), "279037");
    assert!(matches!(generate_code_at("JBSWY3DPEHPK3PXP", 59), Err(TotpError::InvalidSecret)));
}

#[test]
fn seconds_remaining_in_window() {
    assert_eq!(seconds_remaining_at(0), 30);
    assert_eq!(seconds_remaining_at(29), 1);
    assert_eq!(seconds_remaining_at(30), 30);
    assert_eq!(seconds_remaining_at(1_700_000_005), 5);
    let s = seconds_remaining();
    assert!((1..=30).contains(&s));
}

#[test]
fn totp_error_messages() {
    assert_eq!(TotpError::InvalidSecret.message(), "Invalid TOTP secret");
    assert_eq!(TotpError::GenerationFailed.message(), "Failed to generate TOTP code");
}
