//! Token issuance and validation.
//!
//! Tokens carry a subject address, the linked addresses, issue and expiry
//! timestamps and a unique identifier. Their wire form is produced and
//! checked by the `jsonwebtoken` crate under a signing key the service is
//! constructed with; what that crate returns is named, not modelled, and
//! everything else — claim construction, expiry policy, the header check —
//! is verified.

use jsonwebtoken::{decode, encode, Algorithm, DecodingKey, EncodingKey, Header, Validation};
use serde_json::Value;
use vstd::prelude::*;
use vstd::string::StrSliceExecFns;

use crate::clock::now_timestamp;
use crate::errors::AuthError;
use crate::nonce::new_uuid_string;

verus! {

/// Lifetime of an access token, in seconds.
pub const ACCESS_TOKEN_EXPIRY: i64 = 900;

/// Lifetime of a refresh token, in seconds.
pub const REFRESH_TOKEN_EXPIRY: i64 = 604800;

/// The claims a token carries.
#[derive(Debug, Clone)]
pub struct Claims {
    /// Subject: the primary wallet address.
    pub sub: String,
    /// Unix time of issuance.
    pub iat: i64,
    /// Unix time past which the token is invalid.
    pub exp: i64,
    /// Unique token identifier, for revocation.
    pub jti: String,
    /// All wallet addresses linked to the subject.
    pub addresses: Vec<String>,
}

/// The token text that signing the given claim fields under `secret`
/// produces. A function of its arguments alone.
pub uninterp spec fn jwt_encode_spec(
    secret: Seq<u8>,
    sub: Seq<char>,
    iat: int,
    exp: int,
    jti: Seq<char>,
    addresses: Seq<Seq<char>>,
) -> Seq<char>;

/// The claim fields that signature-checking and parsing `token` under
/// `secret` yields, if any. A function of its arguments alone.
pub uninterp spec fn jwt_payload_spec(secret: Seq<u8>, token: Seq<char>) -> Option<
    (Seq<char>, int, int, Seq<char>, Seq<Seq<char>>),
>;

/// What token validation at time `now` yields: the claim fields exactly
/// when the token checks out under `secret` and is not yet expired.
pub open spec fn spec_token_decision(secret: Seq<u8>, token: Seq<char>, now: int) -> Option<
    (Seq<char>, int, int, Seq<char>, Seq<Seq<char>>),
> {
    match jwt_payload_spec(secret, token) {
        Some(f) => if now < f.2 {
            Some(f)
        } else {
            None
        },
        None => None,
    }
}

/// `token` carries exactly these claims: subject `sub`, the given issue
/// time and identifier, expiry `iat + ttl`, and `addresses`.
pub open spec fn issued_token_payload(
    secret: Seq<u8>,
    token: Seq<char>,
    sub: Seq<char>,
    ttl: int,
    iat: int,
    jti: Seq<char>,
    addresses: Seq<Seq<char>>,
) -> bool {
    jwt_payload_spec(secret, token) == Some((sub, iat, iat + ttl, jti, addresses))
}

/// Round trip: a token issued for the given claims — one whose payload the
/// issuance contract pins to `(sub, iat, iat + ttl, jti, addresses)` — is
/// accepted by validation at every time before its expiry, and the subject
/// and address list recovered are exactly the ones it was issued for.
pub proof fn lemma_issue_verify_round_trip(
    secret: Seq<u8>,
    token: Seq<char>,
    sub: Seq<char>,
    ttl: int,
    iat: int,
    jti: Seq<char>,
    addresses: Seq<Seq<char>>,
    now: int,
)
    requires
        issued_token_payload(secret, token, sub, ttl, iat, jti, addresses),
        now < iat + ttl,
    ensures
        spec_token_decision(secret, token, now) == Some((sub, iat, iat + ttl, jti, addresses)),
{
}

/// Relies on `jsonwebtoken::encode` with an HS256 header: serializes the
/// claim fields and signs them under `secret`; deterministic in both. The
/// output is never empty (three dot-joined base64 parts, the header part
/// nonempty). A token it returns is valid under the same key and carries
/// exactly the claims it was built from, which is what
/// `jsonwebtoken::decode` then recovers.
#[verifier::external_body]
fn jwt_encode(secret: &Vec<u8>, c: &Claims) -> (r: Result<String, AuthError>)
    requires
        c.exp >= 0,
    ensures
        match r {
            Ok(t) => t@.len() > 0 && t@ == jwt_encode_spec(
                secret@,
                c.sub@,
                c.iat as int,
                c.exp as int,
                c.jti@,
                c.addresses.deep_view(),
            ) && jwt_payload_spec(secret@, t@) == Some(
                (c.sub@, c.iat as int, c.exp as int, c.jti@, c.addresses.deep_view()),
            ),
            Err(e) => e == AuthError::TokenCreation,
        },
{
    let mut m = serde_json::Map::new();
    m.insert("sub".to_string(), c.sub.clone().into());
    m.insert("iat".to_string(), c.iat.into());
    m.insert("exp".to_string(), c.exp.into());
    m.insert("jti".to_string(), c.jti.clone().into());
    m.insert("addresses".to_string(), c.addresses.clone().into());
    let key = EncodingKey::from_secret(secret);
    encode(&Header::default(), &Value::Object(m), &key).map_err(|_| AuthError::TokenCreation)
}

/// Relies on `jsonwebtoken::decode` with HS256 and expiry checking turned
/// off (expiry is checked by verified code): accepts exactly the tokens
/// whose signature matches `secret` and whose payload carries the five
/// claim fields, and in particular inverts `jsonwebtoken::encode` on every
/// token that `encode` produced under the same key.
#[verifier::external_body]
fn jwt_decode(secret: &Vec<u8>, token: &str) -> (r: Result<Claims, AuthError>)
    ensures
        match r {
            Ok(c) => jwt_payload_spec(secret@, token@) == Some(
                (c.sub@, c.iat as int, c.exp as int, c.jti@, c.addresses.deep_view()),
            ),
            Err(e) => jwt_payload_spec(secret@, token@) is None && e
                == AuthError::AuthenticationError,
        },
{
    let mut val = Validation::new(Algorithm::HS256);
    val.validate_exp = false;
    let e = AuthError::AuthenticationError;
    let c = decode::<Value>(token, &DecodingKey::from_secret(secret), &val).map_err(|_| e)?.claims;
    let mut addresses = Vec::new();
    for v in c["addresses"].as_array().ok_or(e)? {
        addresses.push(v.as_str().ok_or(e)?.to_string());
    }
    Ok(Claims {
        sub: c["sub"].as_str().ok_or(e)?.to_string(),
        iat: c["iat"].as_i64().ok_or(e)?,
        exp: c["exp"].as_i64().ok_or(e)?,
        jti: c["jti"].as_str().ok_or(e)?.to_string(),
        addresses,
    })
}

/// Issues and validates bearer tokens under one signing key.
///
/// The key is mandatory: the service only exists once a caller supplies
/// one, so an unconfigured deployment fails at startup instead of falling
/// back to a known secret.
pub struct JwtService {
    /// The signing key.
    pub secret: Vec<u8>,
}

impl JwtService {
    /// A token service signing with `secret`.
    pub fn new(secret: Vec<u8>) -> (s: Self)
        ensures
            s.secret@ == secret@,
    {
        JwtService { secret }
    }

    /// Issue a token for `address` carrying `addresses`, valid for `ttl`
    /// seconds from now.
    fn issue_token(&self, address: &str, addresses: Vec<String>, ttl: i64) -> (r: Result<
        String,
        AuthError,
    >)
        requires
            ttl >= 0,
        ensures
            match r {
                Ok(t) => t@.len() > 0 && exists|iat: int, jti: Seq<char>|
                    #[trigger] issued_token_payload(
                        self.secret@,
                        t@,
                        address@,
                        ttl as int,
                        iat,
                        jti,
                        addresses.deep_view(),
                    ),
                Err(e) => e == AuthError::TokenCreation,
            },
    {
        let now: i64 = now_timestamp();
        if now < 0 || now > i64::MAX - ttl {
            return Err(AuthError::TokenCreation);
        }
        let jti: String = new_uuid_string();
        let ghost jv = jti@;
        let claims = Claims {
            sub: address.to_owned(),
            iat: now,
            exp: now + ttl,
            jti,
            addresses,
        };
        let r = jwt_encode(&self.secret, &claims);
        proof {
            if r is Ok {
                let t = r->Ok_0;
                assert(issued_token_payload(
                    self.secret@,
                    t@,
                    address@,
                    ttl as int,
                    now as int,
                    jv,
                    claims.addresses.deep_view(),
                ));
            }
        }
        r
    }

    /// Issue a short-lived access token.
    pub fn generate_access_token(&self, address: &str, addresses: Vec<String>) -> (r: Result<
        String,
        AuthError,
    >)
        ensures
            match r {
                Ok(t) => t@.len() > 0 && exists|iat: int, jti: Seq<char>|
                    #[trigger] issued_token_payload(
                        self.secret@,
                        t@,
                        address@,
                        ACCESS_TOKEN_EXPIRY as int,
                        iat,
                        jti,
                        addresses.deep_view(),
                    ),
                Err(e) => e == AuthError::TokenCreation,
            },
    {
        self.issue_token(address, addresses, ACCESS_TOKEN_EXPIRY)
    }

    /// Issue a long-lived refresh token.
    pub fn generate_refresh_token(&self, address: &str, addresses: Vec<String>) -> (r: Result<
        String,
        AuthError,
    >)
        ensures
            match r {
                Ok(t) => t@.len() > 0 && exists|iat: int, jti: Seq<char>|
                    #[trigger] issued_token_payload(
                        self.secret@,
                        t@,
                        address@,
                        REFRESH_TOKEN_EXPIRY as int,
                        iat,
                        jti,
                        addresses.deep_view(),
                    ),
                Err(e) => e == AuthError::TokenCreation,
            },
    {
        self.issue_token(address, addresses, REFRESH_TOKEN_EXPIRY)
    }

    /// Validate a token against `now`: its signature and payload must
    /// check out under the service key and it must not be expired. In
    /// particular any token issued by this service for an expiry later
    /// than `now` is accepted with exactly the claims it was issued for.
    pub fn verify_token_at(&self, token: &str, now: i64) -> (r: Result<Claims, AuthError>)
        ensures
            match r {
                Ok(c) => spec_token_decision(self.secret@, token@, now as int) == Some(
                    (c.sub@, c.iat as int, c.exp as int, c.jti@, c.addresses.deep_view()),
                ) && now < c.exp,
                Err(e) => e == AuthError::AuthenticationError && spec_token_decision(
                    self.secret@,
                    token@,
                    now as int,
                ) is None,
            },
    {
        match jwt_decode(&self.secret, token) {
            Err(e) => Err(e),
            Ok(c) => {
                if c.exp <= now {
                    Err(AuthError::AuthenticationError)
                } else {
                    Ok(c)
                }
            },
        }
    }

    /// Validate a token against the current time.
    pub fn verify_token(&self, token: &str) -> (r: Result<Claims, AuthError>)
        ensures
            match r {
                Ok(c) => jwt_payload_spec(self.secret@, token@) == Some(
                    (c.sub@, c.iat as int, c.exp as int, c.jti@, c.addresses.deep_view()),
                ),
                Err(e) => e == AuthError::AuthenticationError,
            },
            jwt_payload_spec(self.secret@, token@) is None ==> r is Err,
    {
        let now: i64 = now_timestamp();
        self.verify_token_at(token, now)
    }

    /// The token inside an `Authorization` header: whatever follows the
    /// `Bearer ` scheme prefix.
    pub fn extract_token_from_header(auth_header: &str) -> (r: Option<String>)
        ensures
            match r {
                Some(t) => spec_extract_bearer(auth_header@) == Some(t@),
                None => spec_extract_bearer(auth_header@) is None,
            },
    {
        proof {
            reveal_strlit("Bearer ");
        }
        let n: usize = auth_header.unicode_len();
        if n < 7 {
            return None;
        }
        let mut lit: Vec<char> = Vec::new();
        lit.push('B');
        lit.push('e');
        lit.push('a');
        lit.push('r');
        lit.push('e');
        lit.push('r');
        lit.push(' ');
        proof {
            assert(lit@ =~= "Bearer "@);
        }
        let mut i: usize = 0;
        let mut mismatch: bool = false;
        while i < 7 && !mismatch
            invariant
                0 <= i <= 7,
                n == auth_header@.len(),
                n >= 7,
                lit@ == "Bearer "@,
                lit@.len() == 7,
                !mismatch ==> (forall|k: int|
                    0 <= k < i ==> auth_header@[k] == #[trigger] lit@[k]),
                mismatch ==> (exists|k: int|
                    0 <= k < 7 && auth_header@[k] != #[trigger] lit@[k]),
            decreases 7 - i, (if mismatch { 0int } else { 1int }),
        {
            if auth_header.get_char(i) != lit[i] {
                mismatch = true;
            } else {
                i = i + 1;
            }
        }
        if mismatch {
            proof {
                let w = choose|k: int| 0 <= k < 7 && auth_header@[k] != #[trigger] lit@[k];
                assert(auth_header@.subrange(0, 7)[w] == auth_header@[w]);
                assert(auth_header@.subrange(0, 7) != "Bearer "@);
            }
            None
        } else {
            proof {
                assert(auth_header@.subrange(0, 7) =~= "Bearer "@) by {
                    assert(forall|k: int|
                        0 <= k < 7 ==> #[trigger] auth_header@.subrange(0, 7)[k]
                            == auth_header@[k]);
                };
            }
            let rest: &str = auth_header.substring_char(7, n);
            Some(rest.to_owned())
        }
    }
}

/// The token that a well-formed `Authorization` header carries.
pub open spec fn spec_extract_bearer(h: Seq<char>) -> Option<Seq<char>> {
    if h.len() >= 7 && h.subrange(0, 7) == "Bearer "@ {
        Some(h.subrange(7, h.len() as int))
    } else {
        None
    }
}

} // verus!
