//! Challenge messages: a signable text binding an address, a timestamp and
//! a random nonce, and the timestamp check applied at login.

use vstd::prelude::*;
use vstd::string::{StrSliceExecFns, StringExecFns};

use crate::clock::now_timestamp;
use crate::errors::AuthError;
use crate::nonce::new_uuid_string;
use crate::text::{
    find_char_from, find_sub, i64_chars, parse_i64_chars, spec_find, spec_find_char_from,
    spec_i64_chars, spec_parse_i64, spec_trim_chars, string_from_chars, to_char_vec,
    trim_ascii_chars,
};

verus! {

/// The text that opens every challenge, up to the address.
pub open spec fn challenge_prefix() -> Seq<char> {
    "Sign this message to authenticate with Cardano Explorer:\n\nAddress: "@
}

/// The text between the address and the timestamp digits.
pub open spec fn timestamp_label() -> Seq<char> {
    " \nTimestamp: "@
}

/// The text between the timestamp digits and the nonce.
pub open spec fn nonce_label() -> Seq<char> {
    " \nNonce: "@
}

/// The label the timestamp check searches for.
pub open spec fn timestamp_needle() -> Seq<char> {
    "Timestamp: "@
}

/// The full challenge text for an address, a timestamp and a nonce.
pub open spec fn spec_challenge_message(addr: Seq<char>, ts: int, nonce: Seq<char>) -> Seq<char> {
    challenge_prefix() + addr + timestamp_label() + spec_i64_chars(ts) + nonce_label() + nonce
}

/// Build the challenge text for `address` with the given timestamp and nonce.
pub fn build_challenge(address: &str, timestamp: i64, nonce: &str) -> (r: String)
    ensures
        r@ == spec_challenge_message(address@, timestamp as int, nonce@),
{
    let mut msg: String = String::from_str(
        "Sign this message to authenticate with Cardano Explorer:\n\nAddress: ",
    );
    msg.append(address);
    msg.append(" \nTimestamp: ");
    let ts_digits: Vec<char> = i64_chars(timestamp);
    let ts_str: String = string_from_chars(&ts_digits);
    msg.append(ts_str.as_str());
    msg.append(" \nNonce: ");
    msg.append(nonce);
    proof {
        assert(msg@ =~= spec_challenge_message(address@, timestamp as int, nonce@));
    }
    msg
}

/// Generate a challenge for `address`: the current time and a fresh random
/// nonce, in the fixed message format.
pub fn generate_challenge(address: &str) -> (r: String)
    ensures
        exists|ts: int, nonce: Seq<char>|
            {
                &&& #[trigger] r@ == spec_challenge_message(address@, ts, nonce)
                &&& i64::MIN <= ts <= i64::MAX
                &&& nonce.len() == 36
                &&& forall|i: int| 0 <= i < nonce.len() ==> #[trigger] nonce[i] != '\n'
            },
{
    let now: i64 = now_timestamp();
    let nonce: String = new_uuid_string();
    let r = build_challenge(address, now, nonce.as_str());
    proof {
        let ts = now as int;
        let nc = nonce@;
        assert({
            &&& r@ == spec_challenge_message(address@, ts, nc)
            &&& i64::MIN <= ts <= i64::MAX
            &&& nc.len() == 36
            &&& forall|i: int| 0 <= i < nc.len() ==> #[trigger] nc[i] != '\n'
        });
    }
    r
}

/// The timestamp a message carries: the digits between the first
/// `Timestamp: ` label and the following line break (or the end), trimmed
/// of ASCII whitespace and read as a decimal number.
pub open spec fn spec_extract_timestamp(msg: Seq<char>) -> Option<i64> {
    match spec_find(msg, timestamp_needle()) {
        None => None,
        Some(p) => {
            let s = p + timestamp_needle().len();
            let e = match spec_find_char_from(msg, '\n', s) {
                Some(e) => e,
                None => msg.len() as int,
            };
            spec_parse_i64(spec_trim_chars(msg.subrange(s, e)))
        },
    }
}

/// Extract the challenge timestamp from `message`.
pub fn extract_challenge_timestamp(message: &str) -> (r: Option<i64>)
    ensures
        r == spec_extract_timestamp(message@),
{
    let chars: Vec<char> = to_char_vec(message);
    let mut needle: Vec<char> = Vec::new();
    needle.push('T');
    needle.push('i');
    needle.push('m');
    needle.push('e');
    needle.push('s');
    needle.push('t');
    needle.push('a');
    needle.push('m');
    needle.push('p');
    needle.push(':');
    needle.push(' ');
    proof {
        reveal_strlit("Timestamp: ");
        assert(needle@ =~= timestamp_needle());
    }
    let total: usize = chars.len();
    let p: usize = match find_sub(&chars, &needle) {
        Some(p) => p,
        None => {
            return None;
        },
    };
    assert(needle@.len() == 11);
    assert(p + 11 <= total);
    let s: usize = p + 11;
    assert(s == p + timestamp_needle().len());
    let e: usize = match find_char_from(&chars, '\n', s) {
        Some(e) => e,
        None => total,
    };
    let mut window: Vec<char> = Vec::new();
    let mut i: usize = s;
    while i < e
        invariant
            s <= i <= e <= chars@.len(),
            window@ == chars@.subrange(s as int, i as int),
        decreases e - i,
    {
        window.push(chars[i]);
        proof {
            assert(chars@.subrange(s as int, i as int).push(chars@[i as int]) =~= chars@.subrange(
                s as int,
                i as int + 1,
            ));
        }
        i = i + 1;
    }
    proof {
        assert(window@ =~= chars@.subrange(s as int, e as int));
    }
    let trimmed: Vec<char> = trim_ascii_chars(&window);
    parse_i64_chars(&trimmed)
}

/// The timestamp check reads back exactly the timestamp the generator
/// wrote: for every address that does not itself contain the timestamp
/// label (followed by its separating space), every timestamp, and every
/// nonce, extraction from the generated message yields that timestamp.
/// Together with the contract of `verify_challenge_timestamp_at`, the
/// check on such a message at time `now` succeeds exactly when
/// `0 <= now - ts <= max_age`.
pub proof fn lemma_challenge_timestamp_extracts(addr: Seq<char>, ts: int, nonce: Seq<char>)
    requires
        i64::MIN <= ts <= i64::MAX,
        !crate::text::spec_contains(
            challenge_prefix() + addr + seq![' '],
            timestamp_needle(),
        ),
    ensures
        spec_extract_timestamp(spec_challenge_message(addr, ts, nonce)) == Some(ts as i64),
{
    reveal_strlit("Sign this message to authenticate with Cardano Explorer:\n\nAddress: ");
    reveal_strlit(" \nTimestamp: ");
    reveal_strlit(" \nNonce: ");
    reveal_strlit("Timestamp: ");
    let msg = spec_challenge_message(addr, ts, nonce);
    let pre = challenge_prefix();
    let lab = timestamp_label();
    let d = spec_i64_chars(ts);
    let nl = nonce_label();
    let needle = timestamp_needle();
    crate::text::lemma_i64_chars_clean(ts);
    assert(needle.len() == 11);
    assert(lab.len() == 13);
    assert(nl.len() == 9);
    assert(lab[0] == ' ' && lab[1] == '\n');
    assert(nl[0] == ' ' && nl[1] == '\n');
    assert(forall|k: int| 0 <= k < 11 ==> #[trigger] needle[k] == lab[k + 2]);
    assert(forall|k: int| 0 <= k < 11 ==> #[trigger] needle[k] != '\n');
    let base: int = pre.len() as int + addr.len() as int;
    let pstar: int = base + 2;
    // the label's needle occurrence is a match
    assert(msg.len() == base + 13 + d.len() + 9 + nonce.len());
    assert(forall|k: int| 0 <= k < 13 ==> #[trigger] msg[base + k] == lab[k]);
    assert(forall|k: int| 0 <= k < d.len() ==> #[trigger] msg[base + 13 + k] == d[k]);
    assert(forall|k: int| 0 <= k < 9 ==> #[trigger] msg[base + 13 + d.len() + k] == nl[k]);
    assert(msg.subrange(pstar, pstar + 11) =~= needle) by {
        assert(forall|k: int|
            0 <= k < 11 ==> #[trigger] msg.subrange(pstar, pstar + 11)[k] == msg[pstar + k]);
    }
    // no earlier occurrence
    let region = pre + addr + seq![' '];
    assert(region.len() == base + 1);
    assert(forall|k: int| 0 <= k < base + 1 ==> #[trigger] msg[k] == region[k]);
    assert forall|p: int| 0 <= p < pstar implies #[trigger] msg.subrange(p, p + 11) != needle by {
        if p + 11 <= base + 1 {
            if msg.subrange(p, p + 11) == needle {
                assert(region.subrange(p, p + 11) =~= msg.subrange(p, p + 11)) by {
                    assert(forall|k: int|
                        0 <= k < 11 ==> #[trigger] region.subrange(p, p + 11)[k] == region[p + k]);
                    assert(forall|k: int|
                        0 <= k < 11 ==> #[trigger] msg.subrange(p, p + 11)[k] == msg[p + k]);
                }
                crate::text::lemma_matches_implies_contains(region, needle, p);
            }
        } else {
            // the window covers the line break before the label
            let i0: int = base + 1;
            assert(p <= i0 < p + 11);
            assert(msg[i0] == '\n');
            if msg.subrange(p, p + 11) == needle {
                assert(msg.subrange(p, p + 11)[i0 - p] == msg[i0]);
                assert(needle[i0 - p] != '\n');
            }
        }
    }
    crate::text::lemma_find_from_props(msg, needle, 0);
    assert(spec_find(msg, needle) == Some(pstar)) by {
        match spec_find(msg, needle) {
            None => {
                assert(msg.subrange(pstar, pstar + 11) != needle);
            },
            Some(p) => {
                if p < pstar {
                    assert(msg.subrange(p, p + 11) == needle);
                } else if p > pstar {
                    assert(msg.subrange(pstar, pstar + 11) != needle);
                }
            },
        }
    }
    // the window runs from the digits to the line break before the nonce
    let s: int = pstar + 11;
    assert(s == base + 13);
    let estar: int = s + d.len() + 1;
    assert(msg[estar] == '\n') by {
        assert(msg[base + 13 + d.len() + 1] == nl[1]);
    }
    assert forall|q: int| s <= q < estar implies msg[q] != '\n' by {
        if q < base + 13 + d.len() {
            assert(msg[q] == d[q - (base + 13)]);
            assert(d[q - (base + 13)] != '\n');
        } else {
            assert(msg[q] == nl[0]);
        }
    }
    crate::text::lemma_find_char_from_props(msg, '\n', s);
    assert(spec_find_char_from(msg, '\n', s) == Some(estar)) by {
        match spec_find_char_from(msg, '\n', s) {
            None => {
                assert(msg[estar] != '\n');
            },
            Some(e) => {
                if e < estar {
                    assert(msg[e] != '\n');
                } else if e > estar {
                    assert(msg[estar] != '\n');
                }
            },
        }
    }
    let window = msg.subrange(s, estar);
    assert(window =~= d + seq![' ']) by {
        assert(forall|k: int|
            0 <= k < window.len() ==> #[trigger] window[k] == msg[s + k]);
    }
    // trimming strips exactly the trailing space
    assert(spec_trim_chars(window) == d) by {
        assert(!crate::text::is_ascii_ws_char(d[0]));
        assert(window[0] == d[0]);
        assert(crate::text::spec_ltrim_chars(window) == window);
        assert(window.last() == ' ');
        assert(window.drop_last() =~= d);
        assert(!crate::text::is_ascii_ws_char(d.last()));
        assert(crate::text::spec_rtrim_chars(window) == crate::text::spec_rtrim_chars(d));
        assert(crate::text::spec_rtrim_chars(d) == d);
    }
    crate::text::lemma_i64_chars_parse(ts);
}

/// Check the age of a challenge against `now`.
///
/// Succeeds exactly when the message carries a readable timestamp `T` with
/// `0 <= now - T <= max_age_seconds`; an older timestamp is expired, a
/// newer one lies in the future, and a missing or unreadable one is a
/// decode error.
pub fn verify_challenge_timestamp_at(message: &str, now: i64, max_age_seconds: i64) -> (r: Result<
    bool,
    AuthError,
>)
    ensures
        r == match spec_extract_timestamp(message@) {
            None => Err::<bool, AuthError>(AuthError::DecodeError),
            Some(ts) => {
                if now - ts > max_age_seconds {
                    Err(AuthError::ChallengeExpired)
                } else if now - ts < 0 {
                    Err(AuthError::ChallengeFromFuture)
                } else {
                    Ok(true)
                }
            },
        },
{
    let ts: i64 = match extract_challenge_timestamp(message) {
        Some(t) => t,
        None => {
            return Err(AuthError::DecodeError);
        },
    };
    let age: i128 = now as i128 - ts as i128;
    if age > max_age_seconds as i128 {
        Err(AuthError::ChallengeExpired)
    } else if age < 0 {
        Err(AuthError::ChallengeFromFuture)
    } else {
        Ok(true)
    }
}

/// Check the age of a challenge against the current time.
pub fn verify_challenge_timestamp(message: &str, max_age_seconds: i64) -> (r: Result<
    bool,
    AuthError,
>)
    ensures
        (r == Err::<bool, AuthError>(AuthError::DecodeError)) == (spec_extract_timestamp(message@)
            is None),
        r matches Ok(b) ==> b == true && spec_extract_timestamp(message@) is Some,
        r == Err::<bool, AuthError>(AuthError::ChallengeExpired) ==> spec_extract_timestamp(
            message@,
        ) is Some,
        r == Err::<bool, AuthError>(AuthError::ChallengeFromFuture) ==> spec_extract_timestamp(
            message@,
        ) is Some,
        r is Err ==> (r == Err::<bool, AuthError>(AuthError::DecodeError) || r == Err::<
            bool,
            AuthError,
        >(AuthError::ChallengeExpired) || r == Err::<bool, AuthError>(
            AuthError::ChallengeFromFuture,
        )),
{
    let now: i64 = now_timestamp();
    verify_challenge_timestamp_at(message, now, max_age_seconds)
}

} // verus!
