//! Wallet signature verification.
//!
//! The signature field of a login request either carries a whole signed
//! envelope (a four-element binary structure holding a protected header, an
//! attribute map, a payload and a 64-byte signature) or a raw 64-byte
//! signature over the challenge text. In both cases the byte sequence that
//! was actually signed is reconstructed exactly and checked against the
//! public key with an ordered set of strategies.

use vstd::prelude::*;
use vstd::string::StrSliceExecFns;

use crate::cbor::{
    encode_text_bytes, push_all, push_bstr_header, read_cbor_item, spec_ai, spec_bstr_encoding,
    spec_item, spec_major, spec_text_encoding,
};
use crate::crypto::{blake2b256, blake2b256_digest, ed25519_verifies, ed25519_verify};
use crate::errors::AuthError;
use crate::hexstr::{hex_decode_bytes, spec_hex_decode};
use crate::text::{spec_trim, trim_ascii};
use vstd::utf8::encode_utf8;

verus! {

/// The byte sequence a compliant signer signs: a four-element structure of
/// the fixed context text naming a single-signer structure, the protected
/// header, an empty byte-string standing for absent external data, and the
/// payload.
pub open spec fn spec_sig_structure(protected: Seq<u8>, payload: Seq<u8>) -> Seq<u8> {
    seq![
        0x84u8,
        0x6au8,
        0x53u8,
        0x69u8,
        0x67u8,
        0x6eu8,
        0x61u8,
        0x74u8,
        0x75u8,
        0x72u8,
        0x65u8,
        0x31u8,
    ] + spec_bstr_encoding(protected) + seq![0x40u8] + spec_bstr_encoding(payload)
}

/// Parse an embedded-signature envelope: a four-element structure whose
/// items are, in order, a byte-string protected header, an attribute map
/// (content discarded), a payload, and a byte-string signature of exactly
/// 64 bytes. A non-byte-string payload counts as empty. Applies only to
/// buffers whose first byte announces an array kind.
pub open spec fn spec_parse_envelope(b: Seq<u8>) -> Option<(Seq<u8>, Seq<u8>, Seq<u8>)> {
    let ai = spec_ai(b[0]);
    if ai == 27 {
        None
    } else {
        let idx: int = if ai == 24 {
            2
        } else if ai == 25 {
            3
        } else if ai == 26 {
            5
        } else {
            1
        };
        match spec_item(b, idx) {
            Some((l1, Some(prot))) => match spec_item(b, idx + l1) {
                Some((l2, _)) => match spec_item(b, idx + l1 + l2) {
                    Some((l3, pay)) => match spec_item(b, idx + l1 + l2 + l3) {
                        Some((l4, Some(sig))) => if sig.len() == 64 {
                            Some(
                                (
                                    prot,
                                    if pay is Some {
                                        pay->0
                                    } else {
                                        Seq::empty()
                                    },
                                    sig,
                                ),
                            )
                        } else {
                            None
                        },
                        _ => None,
                    },
                    None => None,
                },
                None => None,
            },
            _ => None,
        }
    }
}

/// The complete decoding and verification policy, as a function of the
/// three request fields. `Err` marks a malformed request; `Ok(false)` is a
/// legitimate negative.
pub open spec fn spec_verify_sign(msg: Seq<char>, sig_hex: Seq<char>, pk_hex: Seq<char>) -> Result<
    bool,
    AuthError,
> {
    match spec_hex_decode(spec_trim(encode_utf8(sig_hex))) {
        None => Err(AuthError::DecodeError),
        Some(sb) => {
            let env: Option<(Seq<u8>, Seq<u8>, Seq<u8>)> = if sb.len() > 64 && spec_major(sb[0])
                == 4 {
                match spec_parse_envelope(sb) {
                    None => None,
                    Some((prot, pay, sig)) => Some(
                        (
                            prot,
                            if pay.len() == 0 {
                                encode_utf8(msg)
                            } else {
                                pay
                            },
                            sig,
                        ),
                    ),
                }
            } else if sb.len() == 64 {
                if encode_utf8(msg).len() <= 0xFFFF {
                    Some((Seq::empty(), spec_text_encoding(encode_utf8(msg)), sb))
                } else {
                    None
                }
            } else {
                None
            };
            match env {
                None => Err(AuthError::DecodeError),
                Some((protected, payload, sig)) => {
                    match spec_hex_decode(spec_trim(encode_utf8(pk_hex))) {
                        None => Err(AuthError::DecodeError),
                        Some(pkb) => {
                            if pkb.len() != 32 {
                                Err(AuthError::DecodeError)
                            } else if protected.len() > 0xFFFF || payload.len() > 0xFFFF {
                                Err(AuthError::DecodeError)
                            } else {
                                let ss = spec_sig_structure(protected, payload);
                                Ok(
                                    ed25519_verifies(pkb, ss, sig) || ed25519_verifies(
                                        pkb,
                                        encode_utf8(msg),
                                        sig,
                                    ) || ed25519_verifies(pkb, blake2b256_digest(ss), sig),
                                )
                            }
                        },
                    }
                },
            }
        },
    }
}

/// Decode the envelope items of `b`.
fn parse_envelope(b: &Vec<u8>) -> (r: Result<(Vec<u8>, Vec<u8>, Vec<u8>), AuthError>)
    requires
        b@.len() > 64,
    ensures
        match r {
            Ok((p, pay, s)) => spec_parse_envelope(b@) == Some((p@, pay@, s@)) && s@.len() == 64,
            Err(e) => spec_parse_envelope(b@) is None && e == AuthError::DecodeError,
        },
{
    let blen: usize = b.len();
    let ai: u8 = b[0] % 32;
    if ai == 27 {
        return Err(AuthError::DecodeError);
    }
    let idx: usize = if ai == 24 {
        2
    } else if ai == 25 {
        3
    } else if ai == 26 {
        5
    } else {
        1
    };
    let (l1, prot_opt) = match read_cbor_item(b, idx) {
        Ok(v) => v,
        Err(e) => {
            return Err(e);
        },
    };
    let protected: Vec<u8> = match prot_opt {
        Some(v) => v,
        None => {
            return Err(AuthError::DecodeError);
        },
    };
    let (l2, _u) = match read_cbor_item(b, idx + l1) {
        Ok(v) => v,
        Err(e) => {
            return Err(e);
        },
    };
    let (l3, pay_opt) = match read_cbor_item(b, idx + l1 + l2) {
        Ok(v) => v,
        Err(e) => {
            return Err(e);
        },
    };
    let payload: Vec<u8> = match pay_opt {
        Some(v) => v,
        None => Vec::new(),
    };
    let (l4, sig_opt) = match read_cbor_item(b, idx + l1 + l2 + l3) {
        Ok(v) => v,
        Err(e) => {
            return Err(e);
        },
    };
    let sig: Vec<u8> = match sig_opt {
        Some(v) => v,
        None => {
            return Err(AuthError::DecodeError);
        },
    };
    if sig.len() != 64 {
        return Err(AuthError::DecodeError);
    }
    Ok((protected, payload, sig))
}

/// Build the signed byte sequence from a protected header and a payload.
pub fn build_sig_structure(protected: &Vec<u8>, payload: &Vec<u8>) -> (r: Vec<u8>)
    requires
        protected@.len() <= 0xFFFF,
        payload@.len() <= 0xFFFF,
    ensures
        r@ == spec_sig_structure(protected@, payload@),
{
    let mut out: Vec<u8> = Vec::new();
    out.push(0x84u8);
    out.push(0x6au8);
    out.push(0x53u8);
    out.push(0x69u8);
    out.push(0x67u8);
    out.push(0x6eu8);
    out.push(0x61u8);
    out.push(0x74u8);
    out.push(0x75u8);
    out.push(0x72u8);
    out.push(0x65u8);
    out.push(0x31u8);
    let ghost prefix = out@;
    proof {
        assert(prefix =~= seq![
            0x84u8,
            0x6au8,
            0x53u8,
            0x69u8,
            0x67u8,
            0x6eu8,
            0x61u8,
            0x74u8,
            0x75u8,
            0x72u8,
            0x65u8,
            0x31u8,
        ]);
    }
    push_bstr_header(&mut out, protected.len());
    push_all(&mut out, protected);
    out.push(0x40u8);
    push_bstr_header(&mut out, payload.len());
    push_all(&mut out, payload);
    proof {
        assert(out@ =~= spec_sig_structure(protected@, payload@));
    }
    out
}

/// Verify a wallet signature over `message`.
///
/// The signature hex either decodes to an embedded-signature envelope
/// (length over 64, first byte announcing an array) or to a raw 64-byte
/// signature whose payload is the text-encoding of the message; any other
/// length is a decode error. An empty envelope payload means the payload
/// was detached, and the message text stands in for it. Verification
/// tries, in order: the reconstructed signed structure, the raw message
/// bytes, and the digest of the reconstructed structure.
pub fn verify_sign(message: &str, signature_hex: &str, public_key_hex: &str) -> (r: Result<
    bool,
    AuthError,
>)
    ensures
        r == spec_verify_sign(message@, signature_hex@, public_key_hex@),
{
    let sig_hex_bytes: Vec<u8> = signature_hex.as_bytes_vec();
    let sig_trimmed: Vec<u8> = trim_ascii(&sig_hex_bytes);
    let sig_bytes: Vec<u8> = match hex_decode_bytes(&sig_trimmed) {
        Ok(v) => v,
        Err(e) => {
            return Err(e);
        },
    };
    let msg_bytes: Vec<u8> = message.as_bytes_vec();
    let n: usize = sig_bytes.len();
    let protected: Vec<u8>;
    let payload: Vec<u8>;
    let sig: Vec<u8>;
    if n > 64 && sig_bytes[0] / 32 == 4 {
        match parse_envelope(&sig_bytes) {
            Ok((p, pay, s)) => {
                protected = p;
                if pay.len() == 0 {
                    // a detached payload: the challenge text is what was signed
                    let mut detached: Vec<u8> = Vec::new();
                    push_all(&mut detached, &msg_bytes);
                    payload = detached;
                } else {
                    payload = pay;
                }
                sig = s;
            },
            Err(e) => {
                return Err(e);
            },
        }
    } else if n == 64 {
        if msg_bytes.len() > 0xFFFF {
            return Err(AuthError::DecodeError);
        }
        protected = Vec::new();
        payload = encode_text_bytes(&msg_bytes);
        sig = sig_bytes;
        proof {
            assert(protected@ =~= Seq::<u8>::empty());
        }
    } else {
        return Err(AuthError::DecodeError);
    }
    let pk_hex_bytes: Vec<u8> = public_key_hex.as_bytes_vec();
    let pk_trimmed: Vec<u8> = trim_ascii(&pk_hex_bytes);
    let pkb: Vec<u8> = match hex_decode_bytes(&pk_trimmed) {
        Ok(v) => v,
        Err(e) => {
            return Err(e);
        },
    };
    if pkb.len() != 32 {
        return Err(AuthError::DecodeError);
    }
    if protected.len() > 0xFFFF || payload.len() > 0xFFFF {
        return Err(AuthError::DecodeError);
    }
    let sig_struct: Vec<u8> = build_sig_structure(&protected, &payload);
    if ed25519_verify(&pkb, &sig_struct, &sig) {
        return Ok(true);
    }
    if ed25519_verify(&pkb, &msg_bytes, &sig) {
        return Ok(true);
    }
    let digest: Vec<u8> = blake2b256(&sig_struct);
    if ed25519_verify(&pkb, &digest, &sig) {
        return Ok(true);
    }
    Ok(false)
}

/// Check that a public key could own an address: the key hex must decode to
/// a 32-byte key. Address derivation itself is out of scope, so a
/// well-formed key is accepted.
pub fn verify_address_ownership(address: &str, public_key_hex: &str) -> (r: Result<
    bool,
    AuthError,
>)
    ensures
        r == match spec_hex_decode(encode_utf8(public_key_hex@)) {
            Some(pkb) => if pkb.len() == 32 {
                Ok::<bool, AuthError>(true)
            } else {
                Err(AuthError::DecodeError)
            },
            None => Err(AuthError::DecodeError),
        },
{
    let _ = address;
    let pk_hex_bytes: Vec<u8> = public_key_hex.as_bytes_vec();
    let pkb: Vec<u8> = match hex_decode_bytes(&pk_hex_bytes) {
        Ok(v) => v,
        Err(e) => {
            return Err(e);
        },
    };
    if pkb.len() != 32 {
        return Err(AuthError::DecodeError);
    }
    Ok(true)
}

} // verus!
