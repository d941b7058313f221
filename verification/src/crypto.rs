//! The two cryptographic primitives the verifier rests on, named but not
//! modelled: an edwards-curve signature check and a 256-bit digest.

use vstd::prelude::*;

verus! {

/// Whether the 64-byte signature `sig` is valid for `msg` under the 32-byte
/// public key `pk`. A function of its arguments alone.
pub uninterp spec fn ed25519_verifies(pk: Seq<u8>, msg: Seq<u8>, sig: Seq<u8>) -> bool;

/// The 32-byte Blake2b digest of `data`. A function of its argument alone.
pub uninterp spec fn blake2b256_digest(data: Seq<u8>) -> Seq<u8>;

/// Relies on `pallas_crypto::key::ed25519::PublicKey::verify` (with
/// `PublicKey::try_from` and `Signature::try_from` converting the raw
/// bytes): a deterministic signature check over key, message and signature.
#[verifier::external_body]
pub(crate) fn ed25519_verify(pk: &Vec<u8>, msg: &Vec<u8>, sig: &Vec<u8>) -> (r: bool)
    requires
        pk@.len() == 32,
        sig@.len() == 64,
    ensures
        r == ed25519_verifies(pk@, msg@, sig@),
{
    let public_key = match pallas_crypto::key::ed25519::PublicKey::try_from(pk.as_slice()) {
        Ok(k) => k,
        Err(_) => return false,
    };
    let signature = match pallas_crypto::key::ed25519::Signature::try_from(sig.as_slice()) {
        Ok(s) => s,
        Err(_) => return false,
    };
    public_key.verify(msg.as_slice(), &signature)
}

/// Relies on `pallas_crypto::hash::Hasher::<256>::hash`: the 32-byte Blake2b
/// digest of the input, a function of the input bytes alone.
#[verifier::external_body]
pub(crate) fn blake2b256(data: &Vec<u8>) -> (r: Vec<u8>)
    ensures
        r@ == blake2b256_digest(data@),
        r@.len() == 32,
{
    pallas_crypto::hash::Hasher::<256>::hash(data.as_slice()).as_ref().to_vec()
}

} // verus!
