//! Wallet-based challenge-response authentication.
//!
//! The crate issues signable challenge messages, decodes wallet-produced
//! signature envelopes (a COSE-style binary container or a raw signature),
//! verifies them cryptographically, issues access and refresh tokens, and
//! keeps server-side session and revocation state.

pub mod cbor;
pub mod challenge;
pub mod clock;
pub mod crypto;
pub mod errors;
pub mod gateway;
pub mod hexstr;
pub mod jwt;
pub mod nonce;
pub mod session;
pub mod text;
pub mod verification;

pub use errors::AuthError;
