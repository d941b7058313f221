use wallet_auth::cbor::{encode_text_bytes, push_bstr_header, read_cbor_item};

fn bstr_encoding(payload: &[u8]) -> Vec<u8> {
    let mut out = Vec::new();
    push_bstr_header(&mut out, payload.len());
    out.extend_from_slice(payload);
    out
}

fn payload_of_len(n: usize) -> Vec<u8> {
    (0..n).map(|i| (i % 251) as u8).collect()
}

#[test]
fn byte_string_round_trip_boundary_lengths() {
    for &n in &[0usize, 23, 24, 255, 256, 65535] {
        let payload = payload_of_len(n);
        let enc = bstr_encoding(&payload);
        let (consumed, extracted) = read_cbor_item(&enc, 0).unwrap();
        assert_eq!(consumed, enc.len());
        assert_eq!(extracted.as_deref(), Some(payload.as_slice()));
    }
}

#[test]
fn text_string_round_trip_boundary_lengths() {
    for &n in &[0usize, 23, 24, 255, 256, 65535] {
        let text = vec![b'x'; n];
        let enc = encode_text_bytes(&text);
        let (consumed, extracted) = read_cbor_item(&enc, 0).unwrap();
        assert_eq!(consumed, enc.len());
        assert_eq!(extracted, None);
    }
}

#[test]
fn truncated_buffers_are_rejected() {
    for &n in &[0usize, 23, 24, 255, 256, 65535] {
        let enc = bstr_encoding(&payload_of_len(n));
        for k in 0..enc.len() {
            let truncated = enc[..k].to_vec();
            assert!(read_cbor_item(&truncated, 0).is_err(), "length {} cut at {}", n, k);
        }
    }
}

#[test]
fn array_consumes_its_elements() {
    // [ h'AABB', 7, "ab" ]
    let buf = vec![0x83, 0x42, 0xAA, 0xBB, 0x07, 0x62, b'a', b'b'];
    let (consumed, extracted) = read_cbor_item(&buf, 0).unwrap();
    assert_eq!(consumed, buf.len());
    assert_eq!(extracted, None);
}

#[test]
fn map_consumes_pairs() {
    // { 1: h'00', 2: h'01' }
    let buf = vec![0xA2, 0x01, 0x41, 0x00, 0x02, 0x41, 0x01];
    let (consumed, extracted) = read_cbor_item(&buf, 0).unwrap();
    assert_eq!(consumed, buf.len());
    assert_eq!(extracted, None);
}

#[test]
fn tag_forwards_inner_payload() {
    // tag(24) around h'DEADBEEF'
    let buf = vec![0xD8, 0x18, 0x44, 0xDE, 0xAD, 0xBE, 0xEF];
    let (consumed, extracted) = read_cbor_item(&buf, 0).unwrap();
    assert_eq!(consumed, buf.len());
    assert_eq!(extracted, Some(vec![0xDE, 0xAD, 0xBE, 0xEF]));
}

#[test]
fn unsupported_length_encodings_are_rejected() {
    // additional info 27 (8-byte length) and 31 (indefinite)
    assert!(read_cbor_item(&vec![0x5B, 0, 0, 0, 0, 0, 0, 0, 1, 0xFF], 0).is_err());
    assert!(read_cbor_item(&vec![0x5F, 0x41, 0x00, 0xFF], 0).is_err());
    // reserved additional info values 28..30
    assert!(read_cbor_item(&vec![0x5C], 0).is_err());
    assert!(read_cbor_item(&vec![0x5D], 0).is_err());
    assert!(read_cbor_item(&vec![0x5E], 0).is_err());
}

#[test]
fn array_with_malformed_element_is_rejected() {
    // array(2) with only one well-formed element
    let buf = vec![0x82, 0x41, 0x00];
    assert!(read_cbor_item(&buf, 0).is_err());
}

#[test]
fn simple_values_consume_their_header() {
    // unsigned 5, negative -2, simple value true
    for buf in [vec![0x05u8], vec![0x21], vec![0xF5]] {
        let (consumed, extracted) = read_cbor_item(&buf, 0).unwrap();
        assert_eq!(consumed, 1);
        assert_eq!(extracted, None);
    }
    // unsigned with one-byte argument
    let buf = vec![0x18, 0x2A];
    let (consumed, _) = read_cbor_item(&buf, 0).unwrap();
    assert_eq!(consumed, 2);
}

#[test]
fn headers_use_the_shortest_forms() {
    let mut h = Vec::new();
    push_bstr_header(&mut h, 0);
    assert_eq!(h, vec![0x40]);
    h.clear();
    push_bstr_header(&mut h, 23);
    assert_eq!(h, vec![0x57]);
    h.clear();
    push_bstr_header(&mut h, 24);
    assert_eq!(h, vec![0x58, 24]);
    h.clear();
    push_bstr_header(&mut h, 255);
    assert_eq!(h, vec![0x58, 255]);
    h.clear();
    push_bstr_header(&mut h, 256);
    assert_eq!(h, vec![0x59, 1, 0]);
    h.clear();
    push_bstr_header(&mut h, 65535);
    assert_eq!(h, vec![0x59, 255, 255]);
    let enc = encode_text_bytes(&vec![b'h', b'i']);
    assert_eq!(enc, vec![0x62, b'h', b'i']);
}
