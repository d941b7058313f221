//! Hexadecimal decoding: the exact model, and the call into the `hex` crate.

use vstd::prelude::*;

use crate::errors::AuthError;

verus! {

/// Is `b` the ASCII code of a hexadecimal digit?
pub open spec fn is_hex_digit(b: u8) -> bool {
    (48 <= b <= 57) || (65 <= b <= 70) || (97 <= b <= 102)
}

/// The numeric value of a hexadecimal digit byte.
pub open spec fn hex_val(b: u8) -> int {
    if 48 <= b <= 57 {
        b - 48
    } else if 65 <= b <= 70 {
        b - 55
    } else {
        b - 87
    }
}

/// Every byte of `s` is a hexadecimal digit.
pub open spec fn all_hex(s: Seq<u8>) -> bool {
    forall|i: int| 0 <= i < s.len() ==> is_hex_digit(#[trigger] s[i])
}

/// The bytes a well-formed hexadecimal string denotes: two digits per byte,
/// high digit first.
pub open spec fn spec_hex_bytes(s: Seq<u8>) -> Seq<u8> {
    Seq::new((s.len() / 2) as nat, |i: int| (hex_val(s[2 * i]) * 16 + hex_val(s[2 * i + 1])) as u8)
}

/// What hexadecimal decoding returns: the denoted bytes for an even-length
/// all-digit input, nothing otherwise.
pub open spec fn spec_hex_decode(s: Seq<u8>) -> Option<Seq<u8>> {
    if s.len() % 2 == 0 && all_hex(s) {
        Some(spec_hex_bytes(s))
    } else {
        None
    }
}

/// Relies on `hex::decode`: an even-length string of hexadecimal digits
/// (either case) decodes to one byte per digit pair; an odd length or any
/// other byte is rejected.
#[verifier::external_body]
pub(crate) fn hex_decode_bytes(data: &Vec<u8>) -> (r: Result<Vec<u8>, AuthError>)
    ensures
        match r {
            Ok(v) => spec_hex_decode(data@) == Some(v@),
            Err(e) => spec_hex_decode(data@) is None && e == AuthError::DecodeError,
        },
{
    hex::decode(data).map_err(|_| AuthError::DecodeError)
}

} // verus!
