use wallet_auth::errors::AuthError;
use wallet_auth::jwt::JwtService;

fn service() -> JwtService {
    JwtService::new(b"jwtkey".to_vec())
}

#[test]
fn test_jwt() {
    let address = "addr_test12344".to_string();
    let addresses = vec![address.clone()];

    let svc = service();
    let token = svc.generate_access_token(&address, addresses.clone()).unwrap();
    assert!(!token.is_empty());

    let claims = svc.verify_token(&token).unwrap();
    assert_eq!(claims.sub, address);
    assert_eq!(claims.addresses, addresses);
}

#[test]
fn refresh_token_round_trip() {
    let svc = service();
    let addresses = vec!["addr_a".to_string(), "addr_b".to_string()];
    let token = svc.generate_refresh_token("addr_a", addresses.clone()).unwrap();
    let claims = svc.verify_token(&token).unwrap();
    assert_eq!(claims.sub, "addr_a");
    assert_eq!(claims.addresses, addresses);
    assert_eq!(claims.exp - claims.iat, 604800);
}

#[test]
fn access_token_ttl_shorter_than_refresh() {
    let svc = service();
    let access = svc.generate_access_token("a", vec!["a".to_string()]).unwrap();
    let refresh = svc.generate_refresh_token("a", vec!["a".to_string()]).unwrap();
    let ca = svc.verify_token(&access).unwrap();
    let cr = svc.verify_token(&refresh).unwrap();
    assert_eq!(ca.exp - ca.iat, 900);
    assert_eq!(cr.exp - cr.iat, 604800);
    assert!(ca.exp - ca.iat < cr.exp - cr.iat);
    assert!(ca.exp > ca.iat);
}

#[test]
fn tampered_token_is_rejected() {
    let svc = service();
    let token = svc.generate_access_token("addr", vec!["addr".to_string()]).unwrap();
    let mut bytes = token.into_bytes();
    let last = bytes.len() - 1;
    bytes[last] = if bytes[last] == b'A' { b'B' } else { b'A' };
    let tampered = String::from_utf8(bytes).unwrap();
    assert!(matches!(svc.verify_token(&tampered), Err(AuthError::AuthenticationError)));
}

#[test]
fn wrong_key_is_rejected() {
    let svc = service();
    let other = JwtService::new(b"another-key".to_vec());
    let token = svc.generate_access_token("addr", vec!["addr".to_string()]).unwrap();
    assert!(other.verify_token(&token).is_err());
    assert!(svc.verify_token(&token).is_ok());
}

#[test]
fn expired_token_is_rejected() {
    let svc = service();
    let token = svc.generate_access_token("addr", vec!["addr".to_string()]).unwrap();
    let claims = svc.verify_token(&token).unwrap();
    // at the expiry instant and later, validation must fail
    assert!(svc.verify_token_at(&token, claims.exp).is_err());
    assert!(svc.verify_token_at(&token, claims.exp + 1).is_err());
    // just before, it must pass
    assert!(svc.verify_token_at(&token, claims.exp - 1).is_ok());
}

#[test]
fn extract_token_from_header_cases() {
    assert_eq!(
        JwtService::extract_token_from_header("Bearer abc.def.ghi"),
        Some("abc.def.ghi".to_string())
    );
    assert_eq!(JwtService::extract_token_from_header("Bearer "), Some("".to_string()));
    assert_eq!(JwtService::extract_token_from_header("bearer abc"), None);
    assert_eq!(JwtService::extract_token_from_header("Basic abc"), None);
    assert_eq!(JwtService::extract_token_from_header(""), None);
    assert_eq!(JwtService::extract_token_from_header("Beare"), None);
}

#[test]
fn garbage_token_is_rejected() {
    let svc = service();
    assert!(matches!(svc.verify_token("not-a-token"), Err(AuthError::AuthenticationError)));
    assert!(matches!(svc.verify_token(""), Err(AuthError::AuthenticationError)));
}
