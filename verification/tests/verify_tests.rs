use pallas_crypto::key::ed25519::SecretKey;
use wallet_auth::errors::AuthError;
use wallet_auth::verification::{build_sig_structure, verify_address_ownership, verify_sign};

fn keypair() -> (SecretKey, String) {
    let sk: SecretKey = [7u8; 32].into();
    let pk_bytes: [u8; 32] = sk.public_key().into();
    (sk, hex::encode(pk_bytes))
}

fn bstr(payload: &[u8]) -> Vec<u8> {
    let mut out = Vec::new();
    if payload.len() <= 23 {
        out.push(0x40 + payload.len() as u8);
    } else if payload.len() <= 0xFF {
        out.push(0x58);
        out.push(payload.len() as u8);
    } else {
        out.push(0x59);
        out.push((payload.len() >> 8) as u8);
        out.push((payload.len() & 0xFF) as u8);
    }
    out.extend_from_slice(payload);
    out
}

#[test]
fn raw_signature_over_message_verifies() {
    let (sk, pk_hex) = keypair();
    let message = "hello wallet";
    let sig = sk.sign(message.as_bytes());
    let sig_hex = hex::encode(sig.as_ref());
    assert_eq!(verify_sign(message, &sig_hex, &pk_hex), Ok(true));
}

#[test]
fn flipping_any_signature_bit_fails() {
    let (sk, pk_hex) = keypair();
    let message = "bit flip probe";
    let sig = sk.sign(message.as_bytes());
    let sig_bytes: Vec<u8> = sig.as_ref().to_vec();
    for byte in 0..64 {
        for bit in 0..8 {
            let mut flipped = sig_bytes.clone();
            flipped[byte] ^= 1 << bit;
            let sig_hex = hex::encode(&flipped);
            assert_eq!(verify_sign(message, &sig_hex, &pk_hex), Ok(false));
        }
    }
}

#[test]
fn changing_the_message_fails() {
    let (sk, pk_hex) = keypair();
    let sig_hex = hex::encode(sk.sign("original".as_bytes()).as_ref());
    assert_eq!(verify_sign("original", &sig_hex, &pk_hex), Ok(true));
    assert_eq!(verify_sign("originak", &sig_hex, &pk_hex), Ok(false));
    assert_eq!(verify_sign("origina", &sig_hex, &pk_hex), Ok(false));
}

#[test]
fn embedded_envelope_verifies() {
    let (sk, pk_hex) = keypair();
    let protected: Vec<u8> = vec![0xA1, 0x01, 0x27];
    let payload: Vec<u8> = b"payload carried inside the envelope paded".to_vec();
    let signed = build_sig_structure(&protected, &payload);
    let sig = sk.sign(&signed);
    let mut envelope: Vec<u8> = vec![0x84];
    envelope.extend_from_slice(&bstr(&protected));
    envelope.push(0xA0);
    envelope.extend_from_slice(&bstr(&payload));
    envelope.extend_from_slice(&bstr(sig.as_ref()));
    assert!(envelope.len() > 64);
    let sig_hex = hex::encode(&envelope);
    assert_eq!(verify_sign("unrelated text", &sig_hex, &pk_hex), Ok(true));
}

#[test]
fn detached_payload_uses_the_message() {
    // an empty envelope payload: the signer signed the structure built
    // over the message text itself
    let (sk, pk_hex) = keypair();
    let message = "the detached payload text";
    let protected: Vec<u8> = vec![0xA1, 0x01, 0x27];
    let signed = build_sig_structure(&protected, &message.as_bytes().to_vec());
    let sig = sk.sign(&signed);
    let mut envelope: Vec<u8> = vec![0x84];
    envelope.extend_from_slice(&bstr(&protected));
    envelope.push(0xA0);
    envelope.extend_from_slice(&bstr(&[]));
    envelope.extend_from_slice(&bstr(sig.as_ref()));
    assert!(envelope.len() > 64);
    assert_eq!(verify_sign(message, &hex::encode(&envelope), &pk_hex), Ok(true));
    assert_eq!(verify_sign("another text", &hex::encode(&envelope), &pk_hex), Ok(false));
}

#[test]
fn envelope_with_wrong_signature_length_is_rejected() {
    let protected: Vec<u8> = vec![0xA1, 0x01, 0x27];
    let payload = vec![0u8; 60];
    let mut envelope: Vec<u8> = vec![0x84];
    envelope.extend_from_slice(&bstr(&protected));
    envelope.push(0xA0);
    envelope.extend_from_slice(&bstr(&payload));
    envelope.extend_from_slice(&bstr(&[0u8; 63]));
    let (_, pk_hex) = keypair();
    assert_eq!(
        verify_sign("m", &hex::encode(&envelope), &pk_hex),
        Err(AuthError::DecodeError)
    );
}

#[test]
fn digest_strategy_verifies() {
    let (sk, pk_hex) = keypair();
    let message = "digest strategy";
    let mut text_item = Vec::new();
    text_item.push(0x60 + message.len() as u8);
    text_item.extend_from_slice(message.as_bytes());
    let signed = build_sig_structure(&Vec::new(), &text_item);
    let digest = pallas_crypto::hash::Hasher::<256>::hash(&signed);
    let sig = sk.sign(digest.as_ref());
    let sig_hex = hex::encode(sig.as_ref());
    assert_eq!(verify_sign(message, &sig_hex, &pk_hex), Ok(true));
}

#[test]
fn malformed_hex_is_a_decode_error() {
    let (_, pk_hex) = keypair();
    assert_eq!(verify_sign("m", "zz", &pk_hex), Err(AuthError::DecodeError));
    assert_eq!(verify_sign("m", "abc", &pk_hex), Err(AuthError::DecodeError));
    let sig_hex = hex::encode([0u8; 64]);
    assert_eq!(verify_sign("m", &sig_hex, "notahexkey!"), Err(AuthError::DecodeError));
}

#[test]
fn unexpected_signature_length_is_a_decode_error() {
    let (_, pk_hex) = keypair();
    assert_eq!(
        verify_sign("m", &hex::encode([0u8; 10]), &pk_hex),
        Err(AuthError::DecodeError)
    );
    assert_eq!(
        verify_sign("m", &hex::encode([0u8; 65]), &pk_hex),
        Err(AuthError::DecodeError)
    );
}

#[test]
fn wrong_key_length_is_a_decode_error() {
    let sig_hex = hex::encode([0u8; 64]);
    let short_key = hex::encode([0u8; 31]);
    assert_eq!(verify_sign("m", &sig_hex, &short_key), Err(AuthError::DecodeError));
}

#[test]
fn signature_hex_is_trimmed() {
    let (sk, pk_hex) = keypair();
    let message = "trimmed";
    let sig_hex = format!("  {}\n", hex::encode(sk.sign(message.as_bytes()).as_ref()));
    assert_eq!(verify_sign(message, &sig_hex, &pk_hex), Ok(true));
}

#[test]
fn address_ownership_accepts_a_well_formed_key() {
    let (_, pk_hex) = keypair();
    assert_eq!(verify_address_ownership("addr_test1xyz", &pk_hex), Ok(true));
    assert_eq!(
        verify_address_ownership("addr_test1xyz", "zz"),
        Err(AuthError::DecodeError)
    );
    assert_eq!(
        verify_address_ownership("addr_test1xyz", &hex::encode([0u8; 16])),
        Err(AuthError::DecodeError)
    );
}
