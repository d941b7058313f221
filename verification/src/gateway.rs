//! The authentication flows: challenge, login, refresh, logout, current
//! user, wallet linking, and the guard applied to protected routes.
//!
//! Each function here is the complete decision logic of one route; the
//! HTTP edge only parses requests, holds the store behind a lock, and maps
//! the results onto status codes.

use vstd::prelude::*;
use vstd::string::StringExecFns;

use crate::challenge::{generate_challenge, spec_challenge_message, spec_extract_timestamp,
    verify_challenge_timestamp};
use crate::clock::now_timestamp;
use crate::errors::AuthError;
use crate::jwt::{issued_token_payload, jwt_payload_spec, spec_extract_bearer, Claims, JwtService,
    ACCESS_TOKEN_EXPIRY, REFRESH_TOKEN_EXPIRY};
use crate::session::{add_wallet_post, clone_string_vec, create_session_post,
    lemma_session_index_props, lemma_wf_session_links_self, spec_find_session, SessionStore,
    UserSession};
use crate::verification::{spec_verify_sign, verify_sign};

verus! {

/// How old a challenge may be at login, in seconds.
pub const CHALLENGE_MAX_AGE: i64 = 300;

/// A challenge request: the address to authenticate.
pub struct ChallengeReq {
    /// The wallet address the challenge is for.
    pub address: String,
}

/// A login or wallet-proof request.
pub struct AuthReq {
    /// The wallet address claiming the signature.
    pub address: String,
    /// The challenge message that was signed.
    pub message: String,
    /// The signature, hex-encoded: an envelope or a raw signature.
    pub signature: String,
    /// The signing public key, hex-encoded.
    pub public_key: String,
}

/// The authenticated user, as returned to clients.
pub struct UserInfo {
    /// The primary address.
    pub address: String,
    /// Every linked wallet address.
    pub wallet_addresses: Vec<String>,
    /// Unix time the session was created.
    pub created_at: i64,
}

/// A successful login: both tokens and the user they belong to.
pub struct AuthRes {
    /// The short-lived access token.
    pub access_token: String,
    /// The long-lived refresh token.
    pub refresh_token: String,
    /// Always the bearer scheme.
    pub token_type: String,
    /// Access-token lifetime in seconds.
    pub expires_in: i64,
    /// The authenticated user.
    pub user: UserInfo,
}

/// A token-refresh request.
pub struct RefereshRequest {
    /// The refresh token presented.
    pub referesh_token: String,
}

/// A wallet-linking request, proving the new address's key.
pub struct AddWalletRequest {
    /// The address to link.
    pub address: String,
    /// The challenge message that was signed.
    pub message: String,
    /// The signature, hex-encoded.
    pub signature: String,
    /// The signing public key, hex-encoded.
    pub public_key: String,
}

/// Why the guard rejected a request.
#[derive(Clone, Copy, Debug, PartialEq, Eq, Structural)]
pub enum GuardError {
    /// No usable bearer token in the request.
    MissingToken,
    /// The token failed validation or is expired.
    InvalidToken,
    /// The token's identifier has been revoked.
    RevokedToken,
}

impl GuardError {
    /// The response text for this rejection.
    pub fn message(&self) -> (msg: &'static str)
        ensures
            msg@ == match self {
                GuardError::MissingToken => "Authentication required"@,
                GuardError::InvalidToken => "Invalid or expired token"@,
                GuardError::RevokedToken => "Token has been revoked"@,
            },
    {
        match self {
            GuardError::MissingToken => "Authentication required",
            GuardError::InvalidToken => "Invalid or expired token",
            GuardError::RevokedToken => "Token has been revoked",
        }
    }
}

/// Produce a challenge for the requested address, echoing the address.
pub fn get_challenge(query: &ChallengeReq) -> (r: (String, String))
    ensures
        r.1@ == query.address@,
        exists|ts: int, nonce: Seq<char>|
            #[trigger] r.0@ == spec_challenge_message(query.address@, ts, nonce),
{
    let message: String = generate_challenge(query.address.as_str());
    proof {
        let (ts, nonce) = choose|ts: int, nonce: Seq<char>|
            {
                &&& #[trigger] message@ == spec_challenge_message(query.address@, ts, nonce)
                &&& i64::MIN <= ts <= i64::MAX
                &&& nonce.len() == 36
                &&& forall|i: int| 0 <= i < nonce.len() ==> #[trigger] nonce[i] != '\n'
            };
        assert(message@ == spec_challenge_message(query.address@, ts, nonce));
    }
    (message, query.address.clone())
}

/// Log a wallet in: check the challenge age, verify the signature, create
/// or refresh the session, and issue both tokens.
#[verifier::rlimit(100)]
pub fn login(auth_req: &AuthReq, store: &mut SessionStore, jwt: &JwtService) -> (r: Result<
    AuthRes,
    AuthError,
>)
    requires
        old(store).wf(),
    ensures
        final(store).wf(),
        spec_extract_timestamp(auth_req.message@) is None ==> {
            &&& r == Err::<AuthRes, AuthError>(AuthError::DecodeError)
            &&& final(store).sessions_view() == old(store).sessions_view()
            &&& final(store).revoked_view() == old(store).revoked_view()
        },
        match r {
            Ok(res) => {
                &&& spec_extract_timestamp(auth_req.message@) is Some
                &&& spec_verify_sign(auth_req.message@, auth_req.signature@, auth_req.public_key@)
                    == Ok::<bool, AuthError>(true)
                &&& res.access_token@.len() > 0
                &&& res.refresh_token@.len() > 0
                &&& res.user.wallet_addresses.deep_view().contains(auth_req.address@)
                &&& res.token_type@ == "Bearer"@
                &&& res.expires_in == ACCESS_TOKEN_EXPIRY
                &&& res.user.address@ == auth_req.address@
                &&& exists|now: int, sess: UserSession|
                    {
                        &&& #[trigger] create_session_post(
                            *old(store),
                            *final(store),
                            auth_req.address@,
                            now,
                            sess,
                        )
                        &&& res.user.wallet_addresses.deep_view()
                            == sess.wallet_addresses.deep_view()
                        &&& res.user.created_at == sess.created_at
                    }
                &&& exists|iat: int, jti: Seq<char>|
                    #[trigger] issued_token_payload(
                        jwt.secret@,
                        res.access_token@,
                        auth_req.address@,
                        ACCESS_TOKEN_EXPIRY as int,
                        iat,
                        jti,
                        res.user.wallet_addresses.deep_view(),
                    )
                &&& exists|iat: int, jti: Seq<char>|
                    #[trigger] issued_token_payload(
                        jwt.secret@,
                        res.refresh_token@,
                        auth_req.address@,
                        REFRESH_TOKEN_EXPIRY as int,
                        iat,
                        jti,
                        res.user.wallet_addresses.deep_view(),
                    )
            },
            Err(e) => {
                &&& (e == AuthError::AuthenticationError ==> spec_verify_sign(
                    auth_req.message@,
                    auth_req.signature@,
                    auth_req.public_key@,
                ) == Ok::<bool, AuthError>(false))
                &&& (e == AuthError::DecodeError ==> (spec_extract_timestamp(auth_req.message@)
                    is None || spec_verify_sign(
                    auth_req.message@,
                    auth_req.signature@,
                    auth_req.public_key@,
                ) == Err::<bool, AuthError>(AuthError::DecodeError)))
                &&& ((e == AuthError::ChallengeExpired || e == AuthError::ChallengeFromFuture)
                    ==> spec_extract_timestamp(auth_req.message@) is Some)
                &&& (e != AuthError::TokenCreation ==> final(store).sessions_view() == old(
                    store,
                ).sessions_view() && final(store).revoked_view() == old(store).revoked_view())
                &&& (e == AuthError::TokenCreation ==> spec_extract_timestamp(auth_req.message@)
                    is Some && spec_verify_sign(
                    auth_req.message@,
                    auth_req.signature@,
                    auth_req.public_key@,
                ) == Ok::<bool, AuthError>(true) && exists|now: int, sess: UserSession|
                    #[trigger] create_session_post(
                        *old(store),
                        *final(store),
                        auth_req.address@,
                        now,
                        sess,
                    ))
                &&& (e != AuthError::NotFound)
            },
        },
{
    match verify_challenge_timestamp(auth_req.message.as_str(), CHALLENGE_MAX_AGE) {
        Err(e) => {
            return Err(e);
        },
        Ok(_ok) => {},
    }
    match verify_sign(
        auth_req.message.as_str(),
        auth_req.signature.as_str(),
        auth_req.public_key.as_str(),
    ) {
        Ok(true) => {},
        Ok(false) => {
            return Err(AuthError::AuthenticationError);
        },
        Err(e) => {
            return Err(e);
        },
    }
    let session: UserSession = store.create_session(auth_req.address.clone());
    proof {
        let now0 = choose|now: int|
            #[trigger] create_session_post(*old(store), *store, auth_req.address@, now, session);
        assert(create_session_post(*old(store), *store, auth_req.address@, now0, session));
    }
    let addresses: Vec<String> = clone_string_vec(&session.wallet_addresses);
    let addrs_a: Vec<String> = clone_string_vec(&addresses);
    let addrs_r: Vec<String> = clone_string_vec(&addresses);
    let ghost av = addresses.deep_view();
    let access_token: String = match jwt.generate_access_token(auth_req.address.as_str(), addrs_a) {
        Ok(t) => t,
        Err(e) => {
            return Err(e);
        },
    };
    let refresh_token: String = match jwt.generate_refresh_token(
        auth_req.address.as_str(),
        addrs_r,
    ) {
        Ok(t) => t,
        Err(e) => {
            return Err(e);
        },
    };
    proof {
        assert(exists|iat: int, jti: Seq<char>|
            #[trigger] issued_token_payload(
                jwt.secret@,
                access_token@,
                auth_req.address@,
                ACCESS_TOKEN_EXPIRY as int,
                iat,
                jti,
                av,
            )) by {
            let (i0, j0) = choose|iat: int, jti: Seq<char>|
                #[trigger] issued_token_payload(
                    jwt.secret@,
                    access_token@,
                    auth_req.address@,
                    ACCESS_TOKEN_EXPIRY as int,
                    iat,
                    jti,
                    addrs_a.deep_view(),
                );
            assert(issued_token_payload(
                jwt.secret@,
                access_token@,
                auth_req.address@,
                ACCESS_TOKEN_EXPIRY as int,
                i0,
                j0,
                av,
            ));
        };
        assert(exists|iat: int, jti: Seq<char>|
            #[trigger] issued_token_payload(
                jwt.secret@,
                refresh_token@,
                auth_req.address@,
                REFRESH_TOKEN_EXPIRY as int,
                iat,
                jti,
                av,
            )) by {
            let (i0, j0) = choose|iat: int, jti: Seq<char>|
                #[trigger] issued_token_payload(
                    jwt.secret@,
                    refresh_token@,
                    auth_req.address@,
                    REFRESH_TOKEN_EXPIRY as int,
                    iat,
                    jti,
                    addrs_r.deep_view(),
                );
            assert(issued_token_payload(
                jwt.secret@,
                refresh_token@,
                auth_req.address@,
                REFRESH_TOKEN_EXPIRY as int,
                i0,
                j0,
                av,
            ));
        };
    }
    let res = AuthRes {
        access_token,
        refresh_token,
        token_type: String::from_str("Bearer"),
        expires_in: ACCESS_TOKEN_EXPIRY,
        user: UserInfo {
            address: auth_req.address.clone(),
            wallet_addresses: addresses,
            created_at: session.created_at,
        },
    };
    proof {
        assert(res.user.wallet_addresses.deep_view() == av);
        assert(exists|iat: int, jti: Seq<char>|
            #[trigger] issued_token_payload(
                jwt.secret@,
                res.access_token@,
                auth_req.address@,
                ACCESS_TOKEN_EXPIRY as int,
                iat,
                jti,
                res.user.wallet_addresses.deep_view(),
            )) by {
            let (i0, j0) = choose|iat: int, jti: Seq<char>|
                #[trigger] issued_token_payload(
                    jwt.secret@,
                    res.access_token@,
                    auth_req.address@,
                    ACCESS_TOKEN_EXPIRY as int,
                    iat,
                    jti,
                    av,
                );
            assert(issued_token_payload(
                jwt.secret@,
                res.access_token@,
                auth_req.address@,
                ACCESS_TOKEN_EXPIRY as int,
                i0,
                j0,
                res.user.wallet_addresses.deep_view(),
            ));
        };
        assert(exists|iat: int, jti: Seq<char>|
            #[trigger] issued_token_payload(
                jwt.secret@,
                res.refresh_token@,
                auth_req.address@,
                REFRESH_TOKEN_EXPIRY as int,
                iat,
                jti,
                res.user.wallet_addresses.deep_view(),
            )) by {
            let (i0, j0) = choose|iat: int, jti: Seq<char>|
                #[trigger] issued_token_payload(
                    jwt.secret@,
                    res.refresh_token@,
                    auth_req.address@,
                    REFRESH_TOKEN_EXPIRY as int,
                    iat,
                    jti,
                    av,
                );
            assert(issued_token_payload(
                jwt.secret@,
                res.refresh_token@,
                auth_req.address@,
                REFRESH_TOKEN_EXPIRY as int,
                i0,
                j0,
                res.user.wallet_addresses.deep_view(),
            ));
        };
        assert(exists|now: int, sess: UserSession|
            {
                &&& #[trigger] create_session_post(
                    *old(store),
                    *store,
                    auth_req.address@,
                    now,
                    sess,
                )
                &&& res.user.wallet_addresses.deep_view() == sess.wallet_addresses.deep_view()
                &&& res.user.created_at == sess.created_at
            }) by {
            let now0 = choose|now: int|
                #[trigger] create_session_post(*old(store), *store, auth_req.address@, now, session);
            assert({
                &&& create_session_post(*old(store), *store, auth_req.address@, now0, session)
                &&& res.user.wallet_addresses.deep_view() == session.wallet_addresses.deep_view()
                &&& res.user.created_at == session.created_at
            });
        };
    }
    Ok(res)
}

/// Exchange a valid refresh token for a new access token carrying the same
/// subject and addresses.
pub fn referesh_token(req: &RefereshRequest, jwt: &JwtService) -> (r: Result<String, AuthError>)
    ensures
        match r {
            Ok(t) => t@.len() > 0 && (jwt_payload_spec(jwt.secret@, req.referesh_token@)
                matches Some(f) && exists|iat: int, jti: Seq<char>|
                #[trigger] issued_token_payload(
                    jwt.secret@,
                    t@,
                    f.0,
                    ACCESS_TOKEN_EXPIRY as int,
                    iat,
                    jti,
                    f.4,
                )),
            Err(e) => {
                &&& (e == AuthError::AuthenticationError || e == AuthError::TokenCreation)
                &&& (jwt_payload_spec(jwt.secret@, req.referesh_token@) is None ==> e
                    == AuthError::AuthenticationError)
            },
        },
{
    match jwt.verify_token(req.referesh_token.as_str()) {
        Err(_e) => Err(AuthError::AuthenticationError),
        Ok(claims) => {
            let Claims { sub, iat, exp, jti, addresses } = claims;
            let ghost av = addresses.deep_view();
            match jwt.generate_access_token(sub.as_str(), addresses) {
                Ok(t) => {
                    proof {
                        let p = jwt_payload_spec(jwt.secret@, req.referesh_token@);
                        assert(p == Some((sub@, iat as int, exp as int, jti@, av)));
                        assert(p->Some_0.0 == sub@ && p->Some_0.4 == av);
                        assert(exists|iat0: int, jti0: Seq<char>|
                            #[trigger] issued_token_payload(
                                jwt.secret@,
                                t@,
                                p->Some_0.0,
                                ACCESS_TOKEN_EXPIRY as int,
                                iat0,
                                jti0,
                                p->Some_0.4,
                            )) by {
                            let (i0, j0) = choose|iat0: int, jti0: Seq<char>|
                                #[trigger] issued_token_payload(
                                    jwt.secret@,
                                    t@,
                                    sub@,
                                    ACCESS_TOKEN_EXPIRY as int,
                                    iat0,
                                    jti0,
                                    av,
                                );
                            assert(issued_token_payload(
                                jwt.secret@,
                                t@,
                                p->Some_0.0,
                                ACCESS_TOKEN_EXPIRY as int,
                                i0,
                                j0,
                                p->Some_0.4,
                            ));
                        };
                    }
                    Ok(t)
                },
                Err(e) => Err(e),
            }
        },
    }
}

/// Revoke the caller's token.
pub fn logout(store: &mut SessionStore, claims: &Claims)
    ensures
        final(store).sessions_view() == old(store).sessions_view(),
        final(store).revoked_set() == old(store).revoked_set().insert(claims.jti@),
{
    store.revoked_token(claims.jti.clone());
}

/// The current user's session, looked up by the authenticated subject.
pub fn get_current_user(store: &SessionStore, claims: &Claims) -> (r: Result<UserInfo, AuthError>)
    requires
        store.wf(),
    ensures
        match spec_find_session(store.sessions_view(), claims.sub@) {
            None => r == Err::<UserInfo, AuthError>(AuthError::AuthenticationError),
            Some(i) => r matches Ok(u) && u.address@ == claims.sub@
                && u.wallet_addresses.deep_view()
                == store.sessions_view()[i].wallet_addresses.deep_view() && u.created_at
                == store.sessions_view()[i].created_at && u.wallet_addresses.deep_view().contains(
                u.address@,
            ),
        },
{
    match store.get_session(claims.sub.as_str()) {
        None => Err(AuthError::AuthenticationError),
        Some(s) => {
            proof {
                lemma_session_index_props(store.sessions_view(), claims.sub@, 0);
                if let Some(i) = spec_find_session(store.sessions_view(), claims.sub@) {
                    lemma_wf_session_links_self(*store, i);
                }
            }
            Ok(
                UserInfo {
                    address: claims.sub.clone(),
                    wallet_addresses: s.wallet_addresses,
                    created_at: s.created_at,
                },
            )
        },
    }
}

/// Link a further wallet to the caller's session, after verifying the new
/// wallet's signature.
pub fn add_wallet(store: &mut SessionStore, claims: &Claims, req: &AddWalletRequest) -> (r: Result<
    (),
    AuthError,
>)
    requires
        old(store).wf(),
    ensures
        final(store).wf(),
        match spec_verify_sign(req.message@, req.signature@, req.public_key@) {
            Ok(true) => exists|now: int|
                #[trigger] add_wallet_post(
                    *old(store),
                    *final(store),
                    claims.sub@,
                    req.address@,
                    now,
                    r,
                ),
            _ => r == Err::<(), AuthError>(AuthError::DecodeError) && final(store).sessions_view()
                == old(store).sessions_view() && final(store).revoked_view() == old(
                store,
            ).revoked_view(),
        },
{
    match verify_sign(req.message.as_str(), req.signature.as_str(), req.public_key.as_str()) {
        Ok(true) => store.add_wallet(claims.sub.as_str(), req.address.clone()),
        Ok(false) => Err(AuthError::DecodeError),
        Err(_e) => Err(AuthError::DecodeError),
    }
}

/// Decide a protected request against `now`: extract the bearer token,
/// validate it, and refuse a revoked identifier. Exactly the requests
/// carrying a valid, unexpired, unrevoked token pass, with their claims.
pub fn authenticate_request_at(
    jwt: &JwtService,
    store: &SessionStore,
    auth_header: Option<&str>,
    now: i64,
) -> (r: Result<Claims, GuardError>)
    ensures
        match auth_header {
            None => r == Err::<Claims, GuardError>(GuardError::MissingToken),
            Some(h) => match spec_extract_bearer(h@) {
                None => r == Err::<Claims, GuardError>(GuardError::MissingToken),
                Some(tok) => match jwt_payload_spec(jwt.secret@, tok) {
                    None => r == Err::<Claims, GuardError>(GuardError::InvalidToken),
                    Some(f) => {
                        if f.2 <= now {
                            r == Err::<Claims, GuardError>(GuardError::InvalidToken)
                        } else if store.revoked_set().contains(f.3) {
                            r == Err::<Claims, GuardError>(GuardError::RevokedToken)
                        } else {
                            r matches Ok(c) && c.sub@ == f.0 && c.iat == f.1 && c.exp == f.2
                                && c.jti@ == f.3 && c.addresses.deep_view() == f.4
                        }
                    },
                },
            },
        },
{
    let header: &str = match auth_header {
        None => {
            return Err(GuardError::MissingToken);
        },
        Some(h) => h,
    };
    let token: String = match JwtService::extract_token_from_header(header) {
        None => {
            return Err(GuardError::MissingToken);
        },
        Some(t) => t,
    };
    let claims: Claims = match jwt.verify_token_at(token.as_str(), now) {
        Err(_e) => {
            return Err(GuardError::InvalidToken);
        },
        Ok(c) => c,
    };
    if store.is_token_revoked(claims.jti.as_str()) {
        return Err(GuardError::RevokedToken);
    }
    Ok(claims)
}

/// Decide a protected request against the current time.
pub fn authenticate_request(
    jwt: &JwtService,
    store: &SessionStore,
    auth_header: Option<&str>,
) -> (r: Result<Claims, GuardError>)
    ensures
        auth_header is None ==> r == Err::<Claims, GuardError>(GuardError::MissingToken),
        (auth_header matches Some(h) && spec_extract_bearer(h@) is None) ==> r == Err::<
            Claims,
            GuardError,
        >(GuardError::MissingToken),
        match r {
            Ok(c) => {
                &&& auth_header matches Some(h) && spec_extract_bearer(h@) matches Some(tok)
                    && jwt_payload_spec(jwt.secret@, tok) == Some(
                    (c.sub@, c.iat as int, c.exp as int, c.jti@, c.addresses.deep_view()),
                )
                &&& !store.revoked_set().contains(c.jti@)
            },
            Err(e) => e == GuardError::MissingToken ==> (auth_header is None || (
            auth_header matches Some(h) && spec_extract_bearer(h@) is None)),
        },
{
    let now: i64 = now_timestamp();
    authenticate_request_at(jwt, store, auth_header, now)
}

} // verus!
