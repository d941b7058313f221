use wallet_auth::challenge::{
    build_challenge, extract_challenge_timestamp, generate_challenge, verify_challenge_timestamp,
    verify_challenge_timestamp_at,
};
use wallet_auth::errors::AuthError;

#[test]
fn test_generate_challenge() {
    let address = "addr_test123456....";
    let challenge = generate_challenge(address);

    assert!(challenge.contains(address));
    assert!(challenge.contains("Timestamp"));
    assert!(challenge.contains("Nonce"));
}

#[test]
fn test_challange_timestamp_verification() {
    let address = "addr-test123435467...";
    let challenge = generate_challenge(address);

    assert!(verify_challenge_timestamp(&challenge, 300).is_ok());
}

#[test]
fn build_challenge_exact_format() {
    let msg = build_challenge("addr_test1xyz", 1700000000, "my-nonce");
    assert_eq!(
        msg,
        "Sign this message to authenticate with Cardano Explorer:\n\n\
         Address: addr_test1xyz \nTimestamp: 1700000000 \nNonce: my-nonce"
    );
}

#[test]
fn extract_reads_back_the_timestamp() {
    let msg = build_challenge("addr_test1xyz", 1700000000, "nonce");
    assert_eq!(extract_challenge_timestamp(&msg), Some(1700000000));
    let neg = build_challenge("addr_test1xyz", -5, "nonce");
    assert_eq!(extract_challenge_timestamp(&neg), Some(-5));
}

#[test]
fn extract_without_label_fails() {
    assert_eq!(extract_challenge_timestamp("no timestamp here"), None);
    assert_eq!(extract_challenge_timestamp(""), None);
    assert_eq!(extract_challenge_timestamp("Timestamp: notanumber\n"), None);
    assert_eq!(extract_challenge_timestamp("Timestamp: \n"), None);
}

#[test]
fn timestamp_window_is_exact() {
    let msg = build_challenge("addr", 1000, "n");
    // age == max_age is still accepted
    assert_eq!(verify_challenge_timestamp_at(&msg, 1300, 300), Ok(true));
    // one second too old
    assert_eq!(verify_challenge_timestamp_at(&msg, 1301, 300), Err(AuthError::ChallengeExpired));
    // fresh
    assert_eq!(verify_challenge_timestamp_at(&msg, 1000, 300), Ok(true));
    // from the future
    assert_eq!(
        verify_challenge_timestamp_at(&msg, 999, 300),
        Err(AuthError::ChallengeFromFuture)
    );
}

#[test]
fn unreadable_timestamp_is_a_decode_error() {
    assert_eq!(
        verify_challenge_timestamp_at("Tempus fugit", 0, 300),
        Err(AuthError::DecodeError)
    );
}

#[test]
fn extraction_uses_the_first_label() {
    // an address smuggling its own label shifts extraction to that label
    let msg = build_challenge("addrTimestamp: 42\nx", 1000, "n");
    assert_eq!(extract_challenge_timestamp(&msg), Some(42));
}
