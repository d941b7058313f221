use pallas_crypto::key::ed25519::SecretKey;
use wallet_auth::errors::AuthError;
use wallet_auth::gateway::{
    add_wallet, authenticate_request, get_challenge, get_current_user, login, logout,
    referesh_token, AddWalletRequest, AuthReq, ChallengeReq, GuardError, RefereshRequest,
};
use wallet_auth::jwt::JwtService;
use wallet_auth::session::SessionStore;

fn keypair() -> (SecretKey, String) {
    let sk: SecretKey = [42u8; 32].into();
    let pk_bytes: [u8; 32] = sk.public_key().into();
    (sk, hex::encode(pk_bytes))
}

fn signed_login_request(address: &str) -> AuthReq {
    let (sk, pk_hex) = keypair();
    let (message, _addr) = get_challenge(&ChallengeReq { address: address.to_string() });
    let sig_hex = hex::encode(sk.sign(message.as_bytes()).as_ref());
    AuthReq {
        address: address.to_string(),
        message,
        signature: sig_hex,
        public_key: pk_hex,
    }
}

#[test]
fn end_to_end_challenge_login_me_logout() {
    let address = "addr_test1xyz";
    let mut store = SessionStore::new();
    let jwt = JwtService::new(b"test-secret".to_vec());

    // challenge carries the address and a timestamp
    let (message, echoed) = get_challenge(&ChallengeReq { address: address.to_string() });
    assert_eq!(echoed, address);
    assert!(message.contains(address));
    assert!(message.contains("Timestamp: "));

    // login with a raw signature over the challenge
    let req = signed_login_request(address);
    let res = login(&req, &mut store, &jwt).unwrap();
    assert_eq!(res.token_type, "Bearer");
    assert_eq!(res.expires_in, 900);
    assert!(!res.access_token.is_empty());
    assert!(!res.refresh_token.is_empty());
    assert_ne!(res.access_token, res.refresh_token);
    assert_eq!(res.user.address, address);
    assert_eq!(res.user.wallet_addresses, vec![address.to_string()]);

    // the access token passes the guard
    let header = format!("Bearer {}", res.access_token);
    let claims = authenticate_request(&jwt, &store, Some(&header)).unwrap();
    assert_eq!(claims.sub, address);

    // current user resolves through the session store
    let me = get_current_user(&store, &claims).unwrap();
    assert_eq!(me.address, address);
    assert_eq!(me.wallet_addresses, vec![address.to_string()]);

    // logout revokes the token; the same header is now refused
    logout(&mut store, &claims);
    assert!(matches!(
        authenticate_request(&jwt, &store, Some(&header)),
        Err(GuardError::RevokedToken)
    ));
}

#[test]
fn login_with_wrong_signature_is_unauthorized() {
    let mut store = SessionStore::new();
    let jwt = JwtService::new(b"test-secret".to_vec());
    let mut req = signed_login_request("addr_test1xyz");
    req.message.push('!');
    assert!(matches!(login(&req, &mut store, &jwt), Err(AuthError::AuthenticationError)));
}

#[test]
fn login_with_malformed_signature_is_a_decode_error() {
    let mut store = SessionStore::new();
    let jwt = JwtService::new(b"test-secret".to_vec());
    let mut req = signed_login_request("addr_test1xyz");
    req.signature = "nothex".to_string();
    assert!(matches!(login(&req, &mut store, &jwt), Err(AuthError::DecodeError)));
}

#[test]
fn login_with_stale_challenge_is_rejected() {
    let mut store = SessionStore::new();
    let jwt = JwtService::new(b"test-secret".to_vec());
    let (sk, pk_hex) = keypair();
    let message = wallet_auth::challenge::build_challenge("addr_test1xyz", 1000, "nonce");
    let sig_hex = hex::encode(sk.sign(message.as_bytes()).as_ref());
    let req = AuthReq {
        address: "addr_test1xyz".to_string(),
        message,
        signature: sig_hex,
        public_key: pk_hex,
    };
    assert!(matches!(login(&req, &mut store, &jwt), Err(AuthError::ChallengeExpired)));
}

#[test]
fn refresh_issues_a_new_access_token() {
    let mut store = SessionStore::new();
    let jwt = JwtService::new(b"test-secret".to_vec());
    let req = signed_login_request("addr_test1xyz");
    let res = login(&req, &mut store, &jwt).unwrap();
    let refreshed = referesh_token(
        &RefereshRequest { referesh_token: res.refresh_token.clone() },
        &jwt,
    )
    .unwrap();
    let claims = jwt.verify_token(&refreshed).unwrap();
    assert_eq!(claims.sub, "addr_test1xyz");
    assert_eq!(claims.exp - claims.iat, 900);
}

#[test]
fn refresh_with_garbage_is_unauthorized() {
    let jwt = JwtService::new(b"test-secret".to_vec());
    assert_eq!(
        referesh_token(&RefereshRequest { referesh_token: "junk".to_string() }, &jwt),
        Err(AuthError::AuthenticationError)
    );
}

#[test]
fn guard_rejects_missing_and_invalid_tokens() {
    let store = SessionStore::new();
    let jwt = JwtService::new(b"test-secret".to_vec());
    assert!(matches!(
        authenticate_request(&jwt, &store, None),
        Err(GuardError::MissingToken)
    ));
    assert!(matches!(
        authenticate_request(&jwt, &store, Some("Basic abc")),
        Err(GuardError::MissingToken)
    ));
    assert!(matches!(
        authenticate_request(&jwt, &store, Some("Bearer not.a.token")),
        Err(GuardError::InvalidToken)
    ));
    assert_eq!(GuardError::MissingToken.message(), "Authentication required");
    assert_eq!(GuardError::InvalidToken.message(), "Invalid or expired token");
    assert_eq!(GuardError::RevokedToken.message(), "Token has been revoked");
}

#[test]
fn add_wallet_verifies_the_new_wallet() {
    let mut store = SessionStore::new();
    let jwt = JwtService::new(b"test-secret".to_vec());
    let res = login(&signed_login_request("addr_test1xyz"), &mut store, &jwt).unwrap();
    let header = format!("Bearer {}", res.access_token);
    let claims = authenticate_request(&jwt, &store, Some(&header)).unwrap();

    // proof for the second wallet, with its own key
    let sk2: SecretKey = [9u8; 32].into();
    let pk2: [u8; 32] = sk2.public_key().into();
    let (message, _) = get_challenge(&ChallengeReq { address: "addr_test1second".to_string() });
    let sig_hex = hex::encode(sk2.sign(message.as_bytes()).as_ref());
    let req = AddWalletRequest {
        address: "addr_test1second".to_string(),
        message,
        signature: sig_hex,
        public_key: hex::encode(pk2),
    };
    assert_eq!(add_wallet(&mut store, &claims, &req), Ok(()));
    let s = store.get_session("addr_test1xyz").unwrap();
    assert_eq!(
        s.wallet_addresses,
        vec!["addr_test1xyz".to_string(), "addr_test1second".to_string()]
    );

    // a bad proof is a bad request
    let bad = AddWalletRequest {
        address: "addr_test1third".to_string(),
        message: "m".to_string(),
        signature: "zz".to_string(),
        public_key: "zz".to_string(),
    };
    assert_eq!(add_wallet(&mut store, &claims, &bad), Err(AuthError::DecodeError));
}

#[test]
fn error_mapping_matches_the_service_edge() {
    assert_eq!(AuthError::DecodeError.http_status(), 400);
    assert_eq!(AuthError::AuthenticationError.http_status(), 401);
    assert_eq!(AuthError::ChallengeExpired.http_status(), 400);
    assert_eq!(AuthError::ChallengeFromFuture.http_status(), 400);
    assert_eq!(AuthError::NotFound.http_status(), 404);
    assert_eq!(AuthError::TokenCreation.http_status(), 500);
    assert_eq!(AuthError::DecodeError.message(), "Malformed request");
}
