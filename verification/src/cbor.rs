//! A minimal reader and writer for a self-describing binary item format.
//!
//! Each item starts with a header byte whose top three bits select the kind
//! (unsigned integer, negative integer, byte-string, text-string, array, map,
//! tag, simple) and whose low five bits select a length encoding: values
//! 0 to 23 hold the length directly, 24/25/26 announce 1/2/4 big-endian
//! length bytes, and 27 as well as the indefinite-length marker 31 are
//! unsupported. The reader is a pure, bounds-checked function of the buffer;
//! the spec functions below define its result completely.

use vstd::prelude::*;

use crate::errors::AuthError;

verus! {

/// The kind selector of a header byte: its top three bits.
pub open spec fn spec_major(b: u8) -> int {
    (b as int) / 32
}

/// The additional-information field of a header byte: its low five bits.
pub open spec fn spec_ai(b: u8) -> int {
    (b as int) % 32
}

/// Decode the length field of the item starting at `start`: the index just
/// past the length bytes, and the declared length. `None` on a truncated
/// buffer or an unsupported length encoding (27, 28..=31).
pub open spec fn spec_len_info(b: Seq<u8>, start: int) -> Option<(int, int)> {
    if !(0 <= start < b.len()) {
        None
    } else {
        let ai = spec_ai(b[start]);
        if ai <= 23 {
            Some((start + 1, ai))
        } else if ai == 24 {
            if start + 2 <= b.len() {
                Some((start + 2, b[start + 1] as int))
            } else {
                None
            }
        } else if ai == 25 {
            if start + 3 <= b.len() {
                Some((start + 3, (b[start + 1] as int) * 256 + (b[start + 2] as int)))
            } else {
                None
            }
        } else if ai == 26 {
            if start + 5 <= b.len() {
                Some(
                    (
                        start + 5,
                        (b[start + 1] as int) * 16777216 + (b[start + 2] as int) * 65536 + (b[start
                            + 3] as int) * 256 + (b[start + 4] as int),
                    ),
                )
            } else {
                None
            }
        } else {
            None
        }
    }
}

/// The item starting at `start`: `Some((consumed, payload))` where `consumed`
/// is the number of bytes the item occupies and `payload` is the extracted
/// byte-string content (for byte-strings, and forwarded through tags).
/// `None` when the buffer is malformed or truncated.
pub open spec fn spec_item(b: Seq<u8>, start: int) -> Option<(int, Option<Seq<u8>>)>
    decreases b.len() - start, 0int,
{
    match spec_len_info(b, start) {
        None => None,
        Some((idx, n)) => {
            let major = spec_major(b[start]);
            if major == 2 {
                if idx + n <= b.len() {
                    Some(((idx - start) + n, Some(b.subrange(idx, idx + n))))
                } else {
                    None
                }
            } else if major == 3 {
                if idx + n <= b.len() {
                    Some(((idx - start) + n, None))
                } else {
                    None
                }
            } else if major == 4 {
                match spec_items(b, idx, n as nat) {
                    None => None,
                    Some(end) => Some((end - start, None)),
                }
            } else if major == 5 {
                match spec_items(b, idx, (2 * n) as nat) {
                    None => None,
                    Some(end) => Some((end - start, None)),
                }
            } else if major == 6 {
                match spec_item(b, idx) {
                    None => None,
                    Some((l, p)) => Some(((idx - start) + l, p)),
                }
            } else {
                Some((idx - start, None))
            }
        },
    }
}

/// The end index after reading `count` consecutive items starting at `idx`,
/// or `None` if any of them is malformed.
pub open spec fn spec_items(b: Seq<u8>, idx: int, count: nat) -> Option<int>
    decreases b.len() - idx, count + 1int,
{
    if count == 0 {
        Some(idx)
    } else {
        match spec_item(b, idx) {
            None => None,
            Some((l, p)) => {
                if 1 <= l && idx + l <= b.len() {
                    spec_items(b, idx + l, (count - 1) as nat)
                } else {
                    None
                }
            },
        }
    }
}

/// A parsed item always consumes at least one byte and stays in bounds.
pub proof fn lemma_spec_item_bounds(b: Seq<u8>, start: int)
    ensures
        spec_item(b, start) matches Some((l, p)) ==> 1 <= l && start + l <= b.len() && 0 <= start,
    decreases b.len() - start, 0int,
{
    if let Some((idx, n)) = spec_len_info(b, start) {
        let major = spec_major(b[start]);
        if major == 4 {
            lemma_spec_items_bounds(b, idx, n as nat);
        } else if major == 5 {
            lemma_spec_items_bounds(b, idx, (2 * n) as nat);
        } else if major == 6 {
            lemma_spec_item_bounds(b, idx);
        }
    }
}

/// Reading a run of items only moves the cursor forward, and not past the end.
pub proof fn lemma_spec_items_bounds(b: Seq<u8>, idx: int, count: nat)
    ensures
        spec_items(b, idx, count) matches Some(end) ==> idx <= end <= b.len() || count == 0,
    decreases b.len() - idx, count + 1int,
{
    if count != 0 {
        if let Some((l, p)) = spec_item(b, idx) {
            if 1 <= l && idx + l <= b.len() {
                lemma_spec_items_bounds(b, idx + l, (count - 1) as nat);
            }
        }
    }
}

/// The view of an extracted payload.
pub open spec fn payload_view(p: Option<Vec<u8>>) -> Option<Seq<u8>> {
    match p {
        Some(v) => Some(v@),
        None => None,
    }
}

/// Read one item starting at `start`: the number of bytes it occupies and,
/// for byte-strings (also behind tags), its payload. Exactly the decoding
/// that `spec_item` defines; a malformed or truncated buffer is rejected,
/// never indexed out of bounds.
pub fn read_cbor_item(bytes: &Vec<u8>, start: usize) -> (r: Result<
    (usize, Option<Vec<u8>>),
    AuthError,
>)
    ensures
        match r {
            Ok((n, p)) => spec_item(bytes@, start as int) == Some(
                (n as int, payload_view(p)),
            ) && 1 <= n && start + n <= bytes@.len(),
            Err(e) => spec_item(bytes@, start as int) is None && e == AuthError::DecodeError,
        },
    decreases bytes@.len() - start,
{
    let blen: usize = bytes.len();
    if start >= blen {
        return Err(AuthError::DecodeError);
    }
    let hdr: u8 = bytes[start];
    let major: u8 = hdr / 32;
    let ai: u8 = hdr % 32;
    let mut idx: usize = start + 1;
    let length: usize;
    if ai <= 23 {
        length = ai as usize;
    } else if ai == 24 {
        if blen - idx < 1 {
            return Err(AuthError::DecodeError);
        }
        length = bytes[idx] as usize;
        idx = idx + 1;
    } else if ai == 25 {
        if blen - idx < 2 {
            return Err(AuthError::DecodeError);
        }
        length = (bytes[idx] as usize) * 256 + (bytes[idx + 1] as usize);
        idx = idx + 2;
    } else if ai == 26 {
        if blen - idx < 4 {
            return Err(AuthError::DecodeError);
        }
        length = (bytes[idx] as usize) * 16777216 + (bytes[idx + 1] as usize) * 65536 + (bytes[idx
            + 2] as usize) * 256 + (bytes[idx + 3] as usize);
        idx = idx + 4;
    } else {
        return Err(AuthError::DecodeError);
    }
    assert(spec_len_info(bytes@, start as int) == Some((idx as int, length as int)));
    if major == 2 {
        if blen - idx < length {
            return Err(AuthError::DecodeError);
        }
        let mut payload: Vec<u8> = Vec::new();
        let mut i: usize = 0;
        while i < length
            invariant
                0 <= i <= length,
                start < idx,
                idx + length <= blen,
                blen == bytes@.len(),
                spec_len_info(bytes@, start as int) == Some((idx as int, length as int)),
                spec_major(bytes@[start as int]) == 2,
                payload@ == bytes@.subrange(idx as int, idx as int + i as int),
            decreases length - i,
        {
            payload.push(bytes[idx + i]);
            proof {
                assert(bytes@.subrange(idx as int, idx as int + i as int).push(
                    bytes@[idx as int + i as int],
                ) =~= bytes@.subrange(idx as int, idx as int + i as int + 1));
            }
            i = i + 1;
        }
        Ok(((idx - start) + length, Some(payload)))
    } else if major == 3 {
        if blen - idx < length {
            return Err(AuthError::DecodeError);
        }
        Ok(((idx - start) + length, None))
    } else if major == 4 {
        let mut cur: usize = idx;
        let mut k: usize = 0;
        while k < length
            invariant
                0 <= k <= length,
                start < idx <= cur <= blen,
                blen == bytes@.len(),
                spec_len_info(bytes@, start as int) == Some((idx as int, length as int)),
                spec_major(bytes@[start as int]) == 4,
                spec_items(bytes@, idx as int, length as nat) == spec_items(
                    bytes@,
                    cur as int,
                    (length - k) as nat,
                ),
            decreases length - k,
        {
            match read_cbor_item(bytes, cur) {
                Err(e) => {
                    proof {
                        assert(spec_items(bytes@, cur as int, (length - k) as nat) is None);
                        assert(spec_item(bytes@, start as int) is None);
                    }
                    return Err(e);
                },
                Ok((l, _p)) => {
                    proof {
                        assert(spec_items(bytes@, cur as int, (length - k) as nat) == spec_items(
                            bytes@,
                            cur as int + l as int,
                            (length - k - 1) as nat,
                        ));
                    }
                    cur = cur + l;
                },
            }
            k = k + 1;
        }
        proof {
            assert(spec_items(bytes@, cur as int, 0nat) == Some(cur as int));
        }
        Ok((cur - start, None))
    } else if major == 5 {
        let mut cur: usize = idx;
        let mut k: usize = 0;
        while k < length
            invariant
                0 <= k <= length,
                start < idx <= cur <= blen,
                blen == bytes@.len(),
                spec_len_info(bytes@, start as int) == Some((idx as int, length as int)),
                spec_major(bytes@[start as int]) == 5,
                spec_items(bytes@, idx as int, (2 * length) as nat) == spec_items(
                    bytes@,
                    cur as int,
                    (2 * (length - k)) as nat,
                ),
            decreases length - k,
        {
            let ghost m = (2 * (length - k)) as nat;
            match read_cbor_item(bytes, cur) {
                Err(e) => {
                    proof {
                        assert(spec_items(bytes@, cur as int, m) is None);
                        assert(spec_item(bytes@, start as int) is None);
                    }
                    return Err(e);
                },
                Ok((l, _p)) => {
                    proof {
                        assert(spec_items(bytes@, cur as int, m) == spec_items(
                            bytes@,
                            cur as int + l as int,
                            (m - 1) as nat,
                        ));
                    }
                    cur = cur + l;
                },
            }
            match read_cbor_item(bytes, cur) {
                Err(e) => {
                    proof {
                        assert(spec_items(bytes@, cur as int, (m - 1) as nat) is None);
                        assert(spec_items(bytes@, idx as int, (2 * length) as nat) is None);
                        assert(spec_item(bytes@, start as int) is None);
                    }
                    return Err(e);
                },
                Ok((l, _p)) => {
                    proof {
                        assert(spec_items(bytes@, cur as int, (m - 1) as nat) == spec_items(
                            bytes@,
                            cur as int + l as int,
                            (m - 2) as nat,
                        ));
                    }
                    cur = cur + l;
                },
            }
            k = k + 1;
        }
        proof {
            assert(spec_items(bytes@, cur as int, 0nat) == Some(cur as int));
        }
        Ok((cur - start, None))
    } else if major == 6 {
        match read_cbor_item(bytes, idx) {
            Err(e) => Err(e),
            Ok((l, p)) => Ok(((idx - start) + l, p)),
        }
    } else {
        Ok((idx - start, None))
    }
}

// ---------------------------------------------------------------------------
// Encoding
// ---------------------------------------------------------------------------

/// The header announcing a byte-string of `len` bytes (`len <= 65535`).
pub open spec fn spec_bstr_header(len: int) -> Seq<u8> {
    if len <= 23 {
        seq![(0x40 + len) as u8]
    } else if len <= 0xFF {
        seq![0x58u8, len as u8]
    } else {
        seq![0x59u8, (len / 256) as u8, (len % 256) as u8]
    }
}

/// The header announcing a text-string of `len` bytes (`len <= 65535`).
pub open spec fn spec_tstr_header(len: int) -> Seq<u8> {
    if len <= 23 {
        seq![(0x60 + len) as u8]
    } else if len <= 0xFF {
        seq![0x78u8, len as u8]
    } else {
        seq![0x79u8, (len / 256) as u8, (len % 256) as u8]
    }
}

/// A byte-string item: its header followed by the payload.
pub open spec fn spec_bstr_encoding(payload: Seq<u8>) -> Seq<u8> {
    spec_bstr_header(payload.len() as int) + payload
}

/// A text-string item: its header followed by the text bytes.
pub open spec fn spec_text_encoding(text: Seq<u8>) -> Seq<u8> {
    spec_tstr_header(text.len() as int) + text
}

/// Append the byte-string header for a `len`-byte payload to `out`.
pub fn push_bstr_header(out: &mut Vec<u8>, len: usize)
    requires
        len <= 0xFFFF,
    ensures
        final(out)@ == old(out)@ + spec_bstr_header(len as int),
{
    if len <= 23 {
        out.push(0x40u8 + len as u8);
        proof {
            assert(out@ =~= old(out)@ + spec_bstr_header(len as int));
        }
    } else if len <= 0xFF {
        out.push(0x58u8);
        out.push(len as u8);
        proof {
            assert(out@ =~= old(out)@ + spec_bstr_header(len as int));
        }
    } else {
        out.push(0x59u8);
        out.push((len / 256) as u8);
        out.push((len % 256) as u8);
        proof {
            assert(out@ =~= old(out)@ + spec_bstr_header(len as int));
        }
    }
}

/// Encode `text` as a text-string item.
pub fn encode_text_bytes(text: &Vec<u8>) -> (r: Vec<u8>)
    requires
        text@.len() <= 0xFFFF,
    ensures
        r@ == spec_text_encoding(text@),
{
    let len: usize = text.len();
    let mut out: Vec<u8> = Vec::new();
    if len <= 23 {
        out.push(0x60u8 + len as u8);
    } else if len <= 0xFF {
        out.push(0x78u8);
        out.push(len as u8);
    } else {
        out.push(0x79u8);
        out.push((len / 256) as u8);
        out.push((len % 256) as u8);
    }
    proof {
        assert(out@ =~= spec_tstr_header(len as int));
    }
    let ghost hdr = out@;
    let mut i: usize = 0;
    while i < len
        invariant
            0 <= i <= len,
            len == text@.len(),
            out@ == hdr + text@.subrange(0, i as int),
        decreases len - i,
    {
        out.push(text[i]);
        proof {
            assert((hdr + text@.subrange(0, i as int)).push(text@[i as int]) =~= hdr
                + text@.subrange(0, i as int + 1));
        }
        i = i + 1;
    }
    proof {
        assert(text@.subrange(0, len as int) =~= text@);
    }
    out
}

/// Append `v` to `out`.
pub fn push_all(out: &mut Vec<u8>, v: &Vec<u8>)
    ensures
        final(out)@ == old(out)@ + v@,
{
    let n: usize = v.len();
    let ghost base = out@;
    let mut i: usize = 0;
    while i < n
        invariant
            0 <= i <= n,
            n == v@.len(),
            out@ == base + v@.subrange(0, i as int),
        decreases n - i,
    {
        out.push(v[i]);
        proof {
            assert((base + v@.subrange(0, i as int)).push(v@[i as int]) =~= base + v@.subrange(
                0,
                i as int + 1,
            ));
        }
        i = i + 1;
    }
    proof {
        assert(v@.subrange(0, n as int) =~= v@);
    }
}

// ---------------------------------------------------------------------------
// Round-trip and truncation laws
// ---------------------------------------------------------------------------

/// Decoding an encoded byte-string recovers exactly the payload, whatever
/// follows it in the buffer.
pub proof fn lemma_bstr_round_trip(payload: Seq<u8>, rest: Seq<u8>)
    requires
        payload.len() <= 0xFFFF,
    ensures
        spec_item(spec_bstr_encoding(payload) + rest, 0) == Some(
            (spec_bstr_encoding(payload).len() as int, Some(payload)),
        ),
{
    let enc = spec_bstr_encoding(payload) + rest;
    let hl = spec_bstr_header(payload.len() as int).len();
    let n = payload.len() as int;
    if n <= 23 {
        assert(enc[0] == (0x40 + n) as u8);
        assert(spec_ai(enc[0]) == n && spec_major(enc[0]) == 2);
        assert(spec_len_info(enc, 0) == Some((1int, n)));
    } else if n <= 0xFF {
        assert(enc[0] == 0x58u8 && enc[1] == n as u8);
        assert(spec_ai(enc[0]) == 24 && spec_major(enc[0]) == 2);
        assert(spec_len_info(enc, 0) == Some((2int, n)));
    } else {
        assert(enc[0] == 0x59u8 && enc[1] == (n / 256) as u8 && enc[2] == (n % 256) as u8);
        assert(spec_ai(enc[0]) == 25 && spec_major(enc[0]) == 2);
        assert((n / 256) * 256 + n % 256 == n);
        assert(spec_len_info(enc, 0) == Some((3int, n)));
    }
    assert(enc.subrange(hl as int, hl as int + n) =~= payload);
}

/// Decoding an encoded text-string consumes exactly the encoding, whatever
/// follows it in the buffer.
pub proof fn lemma_tstr_round_trip(text: Seq<u8>, rest: Seq<u8>)
    requires
        text.len() <= 0xFFFF,
    ensures
        spec_item(spec_text_encoding(text) + rest, 0) == Some(
            (spec_text_encoding(text).len() as int, None::<Seq<u8>>),
        ),
{
    let enc = spec_text_encoding(text) + rest;
    let n = text.len() as int;
    if n <= 23 {
        assert(enc[0] == (0x60 + n) as u8);
        assert(spec_ai(enc[0]) == n && spec_major(enc[0]) == 3);
        assert(spec_len_info(enc, 0) == Some((1int, n)));
    } else if n <= 0xFF {
        assert(enc[0] == 0x78u8 && enc[1] == n as u8);
        assert(spec_ai(enc[0]) == 24 && spec_major(enc[0]) == 3);
        assert(spec_len_info(enc, 0) == Some((2int, n)));
    } else {
        assert(enc[0] == 0x79u8 && enc[1] == (n / 256) as u8 && enc[2] == (n % 256) as u8);
        assert(spec_ai(enc[0]) == 25 && spec_major(enc[0]) == 3);
        assert((n / 256) * 256 + n % 256 == n);
        assert(spec_len_info(enc, 0) == Some((3int, n)));
    }
}

/// A byte-string encoding cut short anywhere is rejected, never misread.
pub proof fn lemma_bstr_truncated(payload: Seq<u8>, k: int)
    requires
        payload.len() <= 0xFFFF,
        0 <= k < spec_bstr_encoding(payload).len(),
    ensures
        spec_item(spec_bstr_encoding(payload).subrange(0, k), 0) is None,
{
    let enc = spec_bstr_encoding(payload);
    let t = enc.subrange(0, k);
    let n = payload.len() as int;
    if k == 0 {
        assert(spec_len_info(t, 0) is None);
    } else {
        assert(t[0] == enc[0]);
        if n <= 23 {
            assert(spec_len_info(t, 0) == Some((1int, n)));
            assert(1 + n > k);
        } else if n <= 0xFF {
            if k == 1 {
                assert(spec_len_info(t, 0) is None);
            } else {
                assert(t[1] == enc[1]);
                assert(spec_len_info(t, 0) == Some((2int, n)));
                assert(2 + n > k);
            }
        } else {
            if k <= 2 {
                assert(spec_len_info(t, 0) is None);
            } else {
                assert(t[1] == enc[1] && t[2] == enc[2]);
                assert((n / 256) * 256 + n % 256 == n);
                assert(spec_len_info(t, 0) == Some((3int, n)));
                assert(3 + n > k);
            }
        }
    }
}

} // verus!
