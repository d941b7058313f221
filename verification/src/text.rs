//! Pure text helpers: ASCII trimming, decimal numbers, substring search.
//!
//! Everything here is exact: each executable function is pinned to a spec
//! function that defines its result completely.

use vstd::prelude::*;

verus! {

// ---------------------------------------------------------------------------
// ASCII whitespace trimming over bytes
// ---------------------------------------------------------------------------

/// ASCII whitespace: space, tab, line feed, form feed, carriage return.
pub open spec fn is_ascii_ws(b: u8) -> bool {
    b == 32 || b == 9 || b == 10 || b == 12 || b == 13
}

/// The sequence with leading ASCII whitespace removed.
pub open spec fn spec_ltrim(s: Seq<u8>) -> Seq<u8>
    decreases s.len(),
{
    if s.len() > 0 && is_ascii_ws(s[0]) {
        spec_ltrim(s.drop_first())
    } else {
        s
    }
}

/// The sequence with trailing ASCII whitespace removed.
pub open spec fn spec_rtrim(s: Seq<u8>) -> Seq<u8>
    decreases s.len(),
{
    if s.len() > 0 && is_ascii_ws(s.last()) {
        spec_rtrim(s.drop_last())
    } else {
        s
    }
}

/// The sequence with ASCII whitespace removed from both ends.
pub open spec fn spec_trim(s: Seq<u8>) -> Seq<u8> {
    spec_rtrim(spec_ltrim(s))
}

proof fn lemma_ltrim_step(s: Seq<u8>, i: int)
    requires
        0 <= i < s.len(),
        is_ascii_ws(s[i]),
        spec_ltrim(s) == spec_ltrim(s.subrange(i, s.len() as int)),
    ensures
        spec_ltrim(s) == spec_ltrim(s.subrange(i + 1, s.len() as int)),
{
    let sub = s.subrange(i, s.len() as int);
    assert(sub.len() > 0 && is_ascii_ws(sub[0]));
    assert(sub.drop_first() =~= s.subrange(i + 1, s.len() as int));
}

proof fn lemma_rtrim_step(s: Seq<u8>, j: int)
    requires
        0 < j <= s.len(),
        is_ascii_ws(s[j - 1]),
        spec_rtrim(s) == spec_rtrim(s.subrange(0, j)),
    ensures
        spec_rtrim(s) == spec_rtrim(s.subrange(0, j - 1)),
{
    let sub = s.subrange(0, j);
    assert(sub.len() > 0 && is_ascii_ws(sub.last()));
    assert(sub.drop_last() =~= s.subrange(0, j - 1));
}

/// Remove ASCII whitespace from both ends of `v`.
pub fn trim_ascii(v: &Vec<u8>) -> (r: Vec<u8>)
    ensures
        r@ == spec_trim(v@),
{
    let n: usize = v.len();
    proof {
        assert(v@.subrange(0, n as int) =~= v@);
    }
    let mut start: usize = 0;
    while start < n && is_ascii_ws_exec(v[start])
        invariant
            0 <= start <= n,
            n == v@.len(),
            spec_ltrim(v@) == spec_ltrim(v@.subrange(start as int, n as int)),
        decreases n - start,
    {
        proof {
            lemma_ltrim_step(v@, start as int);
        }
        start = start + 1;
    }
    let ghost lt = v@.subrange(start as int, n as int);
    proof {
        if start < n {
            assert(lt.len() > 0 && !is_ascii_ws(lt[0]));
        } else {
            assert(lt =~= Seq::<u8>::empty());
        }
        assert(spec_ltrim(v@) == lt);
    }
    let mut end: usize = n;
    while end > start && is_ascii_ws_exec(v[end - 1])
        invariant
            start <= end <= n,
            n == v@.len(),
            spec_ltrim(v@) == lt,
            lt == v@.subrange(start as int, n as int),
            spec_rtrim(lt) == spec_rtrim(v@.subrange(start as int, end as int)),
        decreases end,
    {
        proof {
            let cur = v@.subrange(start as int, end as int);
            assert(cur.len() > 0 && is_ascii_ws(cur.last()));
            assert(cur.drop_last() =~= v@.subrange(start as int, end as int - 1));
        }
        end = end - 1;
    }
    proof {
        let cur = v@.subrange(start as int, end as int);
        if end > start {
            assert(cur.len() > 0 && !is_ascii_ws(cur.last()));
        } else {
            assert(cur =~= Seq::<u8>::empty());
        }
        assert(spec_rtrim(lt) == cur);
    }
    let mut r: Vec<u8> = Vec::new();
    let mut i: usize = start;
    while i < end
        invariant
            start <= i <= end <= n,
            n == v@.len(),
            r@ == v@.subrange(start as int, i as int),
        decreases end - i,
    {
        r.push(v[i]);
        proof {
            assert(v@.subrange(start as int, i as int).push(v@[i as int]) =~= v@.subrange(
                start as int,
                i as int + 1,
            ));
        }
        i = i + 1;
    }
    proof {
        assert(r@ == spec_trim(v@));
    }
    r
}

fn is_ascii_ws_exec(b: u8) -> (r: bool)
    ensures
        r == is_ascii_ws(b),
{
    b == 32 || b == 9 || b == 10 || b == 12 || b == 13
}

// ---------------------------------------------------------------------------
// ASCII whitespace trimming over characters
// ---------------------------------------------------------------------------

/// ASCII whitespace as a character.
pub open spec fn is_ascii_ws_char(c: char) -> bool {
    c == ' ' || c == '\t' || c == '\n' || c == '\u{c}' || c == '\r'
}

/// The character sequence with leading ASCII whitespace removed.
pub open spec fn spec_ltrim_chars(s: Seq<char>) -> Seq<char>
    decreases s.len(),
{
    if s.len() > 0 && is_ascii_ws_char(s[0]) {
        spec_ltrim_chars(s.drop_first())
    } else {
        s
    }
}

/// The character sequence with trailing ASCII whitespace removed.
pub open spec fn spec_rtrim_chars(s: Seq<char>) -> Seq<char>
    decreases s.len(),
{
    if s.len() > 0 && is_ascii_ws_char(s.last()) {
        spec_rtrim_chars(s.drop_last())
    } else {
        s
    }
}

/// The character sequence with ASCII whitespace removed from both ends.
pub open spec fn spec_trim_chars(s: Seq<char>) -> Seq<char> {
    spec_rtrim_chars(spec_ltrim_chars(s))
}

fn is_ascii_ws_char_exec(c: char) -> (r: bool)
    ensures
        r == is_ascii_ws_char(c),
{
    c == ' ' || c == '\t' || c == '\n' || c == '\u{c}' || c == '\r'
}

/// Remove ASCII whitespace from both ends of `v`.
pub fn trim_ascii_chars(v: &Vec<char>) -> (r: Vec<char>)
    ensures
        r@ == spec_trim_chars(v@),
{
    let n: usize = v.len();
    proof {
        assert(v@.subrange(0, n as int) =~= v@);
    }
    let mut start: usize = 0;
    while start < n && is_ascii_ws_char_exec(v[start])
        invariant
            0 <= start <= n,
            n == v@.len(),
            spec_ltrim_chars(v@) == spec_ltrim_chars(v@.subrange(start as int, n as int)),
        decreases n - start,
    {
        proof {
            let sub = v@.subrange(start as int, n as int);
            assert(sub.len() > 0 && is_ascii_ws_char(sub[0]));
            assert(sub.drop_first() =~= v@.subrange(start as int + 1, n as int));
        }
        start = start + 1;
    }
    let ghost lt = v@.subrange(start as int, n as int);
    proof {
        if start < n {
            assert(lt.len() > 0 && !is_ascii_ws_char(lt[0]));
        } else {
            assert(lt =~= Seq::<char>::empty());
        }
        assert(spec_ltrim_chars(v@) == lt);
    }
    let mut end: usize = n;
    while end > start && is_ascii_ws_char_exec(v[end - 1])
        invariant
            start <= end <= n,
            n == v@.len(),
            spec_ltrim_chars(v@) == lt,
            lt == v@.subrange(start as int, n as int),
            spec_rtrim_chars(lt) == spec_rtrim_chars(v@.subrange(start as int, end as int)),
        decreases end,
    {
        proof {
            let cur = v@.subrange(start as int, end as int);
            assert(cur.len() > 0 && is_ascii_ws_char(cur.last()));
            assert(cur.drop_last() =~= v@.subrange(start as int, end as int - 1));
        }
        end = end - 1;
    }
    proof {
        let cur = v@.subrange(start as int, end as int);
        if end > start {
            assert(cur.len() > 0 && !is_ascii_ws_char(cur.last()));
        } else {
            assert(cur =~= Seq::<char>::empty());
        }
        assert(spec_rtrim_chars(lt) == cur);
    }
    let mut r: Vec<char> = Vec::new();
    let mut i: usize = start;
    while i < end
        invariant
            start <= i <= end <= n,
            n == v@.len(),
            r@ == v@.subrange(start as int, i as int),
        decreases end - i,
    {
        r.push(v[i]);
        proof {
            assert(v@.subrange(start as int, i as int).push(v@[i as int]) =~= v@.subrange(
                start as int,
                i as int + 1,
            ));
        }
        i = i + 1;
    }
    proof {
        assert(r@ == spec_trim_chars(v@));
    }
    r
}

// ---------------------------------------------------------------------------
// Decimal digits
// ---------------------------------------------------------------------------

/// Is `c` a decimal digit?
pub open spec fn is_digit(c: char) -> bool {
    48 <= c as u32 <= 57
}

/// Numeric value of a digit character.
pub open spec fn digit_val(c: char) -> int {
    c as u32 - 48
}

/// All characters of `s` are decimal digits.
pub open spec fn all_digits(s: Seq<char>) -> bool {
    forall|i: int| 0 <= i < s.len() ==> is_digit(#[trigger] s[i])
}

/// The integer value of a digit string, most significant digit first.
pub open spec fn spec_dec_value(s: Seq<char>) -> int
    decreases s.len(),
{
    if s.len() == 0 {
        0
    } else {
        spec_dec_value(s.drop_last()) * 10 + digit_val(s.last())
    }
}

/// The canonical decimal digit string of a nonnegative integer.
pub open spec fn spec_udec_chars(n: nat) -> Seq<char>
    decreases n,
{
    if n < 10 {
        seq![((48 + n) as u8) as char]
    } else {
        spec_udec_chars(n / 10).push(((48 + n % 10) as u8) as char)
    }
}

/// The canonical decimal form of an integer, with a leading `-` if negative.
pub open spec fn spec_i64_chars(n: int) -> Seq<char> {
    if n < 0 {
        seq!['-'] + spec_udec_chars((-n) as nat)
    } else {
        spec_udec_chars(n as nat)
    }
}

/// The value `i64::from_str` would return: an optional sign followed by at
/// least one digit, with the value inside the `i64` range.
pub open spec fn spec_parse_i64(s: Seq<char>) -> Option<i64> {
    if s.len() == 0 {
        None
    } else {
        let neg = s[0] == '-';
        let digits = if s[0] == '-' || s[0] == '+' {
            s.drop_first()
        } else {
            s
        };
        if digits.len() == 0 || !all_digits(digits) {
            None
        } else {
            let v = if neg {
                -spec_dec_value(digits)
            } else {
                spec_dec_value(digits)
            };
            if i64::MIN <= v <= i64::MAX {
                Some(v as i64)
            } else {
                None
            }
        }
    }
}

proof fn lemma_dec_value_nonneg(s: Seq<char>)
    requires
        all_digits(s),
    ensures
        spec_dec_value(s) >= 0,
    decreases s.len(),
{
    if s.len() > 0 {
        assert(all_digits(s.drop_last())) by {
            assert(forall|i: int|
                0 <= i < s.len() - 1 ==> s.drop_last()[i] == #[trigger] s[i]);
        }
        lemma_dec_value_nonneg(s.drop_last());
    }
}

/// Appending digits never decreases the value of a digit string.
proof fn lemma_dec_value_prefix_le(s: Seq<char>, k: int)
    requires
        all_digits(s),
        0 <= k <= s.len(),
    ensures
        spec_dec_value(s.subrange(0, k)) <= spec_dec_value(s),
    decreases s.len() - k,
{
    if k < s.len() {
        let t = s.subrange(0, k + 1);
        assert(all_digits(t)) by {
            assert(forall|i: int| 0 <= i < t.len() ==> t[i] == #[trigger] s[i]);
        }
        assert(t.drop_last() =~= s.subrange(0, k));
        lemma_dec_value_nonneg(t.drop_last());
        assert(spec_dec_value(t) == spec_dec_value(t.drop_last()) * 10 + digit_val(t.last()));
        assert(spec_dec_value(t.drop_last()) * 10 >= spec_dec_value(t.drop_last())) by (nonlinear_arith)
            requires
                spec_dec_value(t.drop_last()) >= 0,
        ;
        lemma_dec_value_prefix_le(s, k + 1);
    } else {
        assert(s.subrange(0, k) =~= s);
    }
}

/// Parse a digit string as in `i64::from_str`.
pub fn parse_i64_chars(v: &Vec<char>) -> (r: Option<i64>)
    ensures
        r == spec_parse_i64(v@),
{
    let n: usize = v.len();
    if n == 0 {
        return None;
    }
    let first: char = v[0];
    let neg: bool = first == '-';
    let from: usize = if first == '-' || first == '+' {
        1
    } else {
        0
    };
    let ghost digits = if from == 1 {
        v@.drop_first()
    } else {
        v@
    };
    if n == from {
        assert(digits.len() == 0);
        return None;
    }
    // magnitude cap: 2^63 when negative, 2^63 - 1 otherwise
    let cap: u64 = if neg {
        9223372036854775808u64
    } else {
        9223372036854775807u64
    };
    let mut m: u64 = 0;
    let mut i: usize = from;
    while i < n
        invariant
            from <= i <= n,
            n == v@.len(),
            from == 0 || from == 1,
            from < n,
            neg == (v@[0] == '-'),
            (from == 1) <==> (v@[0] == '-' || v@[0] == '+'),
            digits == (if from == 1 { v@.drop_first() } else { v@ }),
            digits.len() == n - from,
            forall|j: int| 0 <= j < digits.len() ==> digits[j] == v@[j + from],
            all_digits(digits.subrange(0, i - from)),
            m == spec_dec_value(digits.subrange(0, i - from)),
            m <= cap,
            cap == (if neg { 9223372036854775808u64 } else { 9223372036854775807u64 }),
        decreases n - i,
    {
        let c: char = v[i];
        let cu: u32 = c as u32;
        if cu < 48 || cu > 57 {
            assert(!is_digit(digits[i - from]));
            return None;
        }
        let d: u64 = (cu - 48) as u64;
        let ghost pre = digits.subrange(0, i - from);
        let ghost pre1 = digits.subrange(0, i + 1 - from);
        proof {
            assert(pre1.drop_last() =~= pre);
            assert(pre1.last() == digits[i - from]);
            assert(all_digits(pre1)) by {
                assert(forall|j: int| 0 <= j < pre1.len() ==> pre1[j] == #[trigger] digits[j]);
            }
        }
        if m > (cap - d) / 10 {
            // the value already exceeds the representable range
            proof {
                assert(spec_dec_value(pre1) == m * 10 + d);
                assert(m * 10 + d > cap) by (nonlinear_arith)
                    requires
                        m > (cap - d) / 10,
                        0 <= d <= 9,
                        cap >= 9,
                ;
                assert(all_digits(digits) ==> spec_dec_value(digits) > cap) by {
                    if all_digits(digits) {
                        lemma_dec_value_prefix_le(digits, i + 1 - from);
                    }
                }
            }
            return None;
        }
        proof {
            assert(m * 10 + d <= cap) by (nonlinear_arith)
                requires
                    m <= (cap - d) / 10,
                    0 <= d <= 9,
                    d <= cap,
            ;
        }
        m = m * 10 + d;
        proof {
            assert(spec_dec_value(pre1) == spec_dec_value(pre) * 10 + digit_val(pre1.last()));
        }
        i = i + 1;
    }
    proof {
        assert(digits.subrange(0, n - from) =~= digits);
    }
    if neg {
        if m == 9223372036854775808u64 {
            Some(i64::MIN)
        } else {
            Some(-(m as i64))
        }
    } else {
        Some(m as i64)
    }
}

/// The canonical digit characters of `m`.
pub fn udec_chars(m: u64) -> (r: Vec<char>)
    ensures
        r@ == spec_udec_chars(m as nat),
    decreases m,
{
    if m < 10 {
        let c: char = (48 + m as u8) as char;
        let mut r: Vec<char> = Vec::new();
        r.push(c);
        proof {
            assert(r@ =~= spec_udec_chars(m as nat));
        }
        r
    } else {
        let mut r: Vec<char> = udec_chars(m / 10);
        let c: char = (48 + (m % 10) as u8) as char;
        r.push(c);
        r
    }
}

/// The canonical decimal characters of `n`, with a sign when negative.
pub fn i64_chars(n: i64) -> (r: Vec<char>)
    ensures
        r@ == spec_i64_chars(n as int),
{
    if n >= 0 {
        udec_chars(n as u64)
    } else {
        let m: u64 = if n == i64::MIN {
            9223372036854775808u64
        } else {
            (-n) as u64
        };
        assert(m == -(n as int));
        let mut r: Vec<char> = Vec::new();
        r.push('-');
        let mut digits: Vec<char> = udec_chars(m);
        let dn: usize = digits.len();
        let mut i: usize = 0;
        while i < dn
            invariant
                0 <= i <= dn,
                dn == digits@.len(),
                digits@ == spec_udec_chars(m as nat),
                r@ == seq!['-'] + digits@.subrange(0, i as int),
            decreases dn - i,
        {
            r.push(digits[i]);
            proof {
                assert((seq!['-'] + digits@.subrange(0, i as int)).push(digits@[i as int])
                    =~= seq!['-'] + digits@.subrange(0, i as int + 1));
            }
            i = i + 1;
        }
        proof {
            assert(digits@.subrange(0, dn as int) =~= digits@);
            assert(r@ =~= spec_i64_chars(n as int));
        }
        r
    }
}

/// All characters of the canonical digit string are digits, and its value
/// is the number it was built from.
pub proof fn lemma_udec_chars_value(n: nat)
    ensures
        all_digits(spec_udec_chars(n)),
        spec_dec_value(spec_udec_chars(n)) == n,
        spec_udec_chars(n).len() >= 1,
    decreases n,
{
    if n < 10 {
        let s = spec_udec_chars(n);
        assert(s.len() == 1);
        assert(s[0] == ((48 + n) as u8) as char);
        assert(is_digit(s[0]));
        assert(s.drop_last() =~= Seq::<char>::empty());
        assert(spec_dec_value(Seq::<char>::empty()) == 0);
        assert(spec_dec_value(s) == digit_val(s[0]));
        assert(digit_val(s[0]) == n);
    } else {
        lemma_udec_chars_value(n / 10);
        let p = spec_udec_chars(n / 10);
        let s = spec_udec_chars(n);
        assert(s == p.push(((48 + n % 10) as u8) as char));
        assert(s.drop_last() =~= p);
        assert(s.last() == ((48 + n % 10) as u8) as char);
        assert(digit_val(s.last()) == n % 10);
        assert(all_digits(s)) by {
            assert(forall|i: int| 0 <= i < p.len() ==> s[i] == #[trigger] p[i]);
        }
        assert(spec_dec_value(s) == spec_dec_value(p) * 10 + n % 10);
        assert((n / 10) * 10 + n % 10 == n) by (nonlinear_arith);
    }
}

/// Printing then parsing an `i64` gives the number back.
pub proof fn lemma_i64_chars_parse(n: int)
    requires
        i64::MIN <= n <= i64::MAX,
    ensures
        spec_parse_i64(spec_i64_chars(n)) == Some(n as i64),
{
    if n >= 0 {
        lemma_udec_chars_value(n as nat);
        let s = spec_i64_chars(n);
        assert(s == spec_udec_chars(n as nat));
        assert(s.len() >= 1);
        assert(is_digit(s[0]));
        assert(s[0] != '-' && s[0] != '+');
        assert(spec_dec_value(s) == n);
    } else {
        lemma_udec_chars_value((-n) as nat);
        let d = spec_udec_chars((-n) as nat);
        let s = spec_i64_chars(n);
        assert(s == seq!['-'] + d);
        assert(s[0] == '-');
        assert(s.drop_first() =~= d);
        assert(-spec_dec_value(d) == n);
    }
}

/// The canonical decimal form holds no line break and no whitespace.
pub proof fn lemma_i64_chars_clean(n: int)
    requires
        i64::MIN <= n <= i64::MAX,
    ensures
        spec_i64_chars(n).len() >= 1,
        forall|k: int|
            0 <= k < spec_i64_chars(n).len() ==> #[trigger] spec_i64_chars(n)[k] != '\n'
                && !is_ascii_ws_char(spec_i64_chars(n)[k]),
{
    let s = spec_i64_chars(n);
    if n >= 0 {
        lemma_udec_chars_value(n as nat);
        assert forall|k: int| 0 <= k < s.len() implies #[trigger] s[k] != '\n' && !is_ascii_ws_char(
            s[k],
        ) by {
            assert(is_digit(s[k]));
        }
    } else {
        lemma_udec_chars_value((-n) as nat);
        let d = spec_udec_chars((-n) as nat);
        assert forall|k: int| 0 <= k < s.len() implies #[trigger] s[k] != '\n' && !is_ascii_ws_char(
            s[k],
        ) by {
            if k == 0 {
                assert(s[0] == '-');
            } else {
                assert(s[k] == d[k - 1]);
                assert(is_digit(d[k - 1]));
            }
        }
    }
}

// ---------------------------------------------------------------------------
// Substring search
// ---------------------------------------------------------------------------

/// The first index at or after `i` where `n` occurs in `h`.
pub open spec fn spec_find_from(h: Seq<char>, n: Seq<char>, i: int) -> Option<int>
    decreases h.len() - i + 1,
{
    if i + n.len() > h.len() || i < 0 {
        None
    } else if h.subrange(i, i + n.len() as int) == n {
        Some(i)
    } else {
        spec_find_from(h, n, i + 1)
    }
}

/// The first occurrence of `n` in `h`.
pub open spec fn spec_find(h: Seq<char>, n: Seq<char>) -> Option<int> {
    spec_find_from(h, n, 0)
}

/// Does `n` occur anywhere in `h`?
pub open spec fn spec_contains(h: Seq<char>, n: Seq<char>) -> bool {
    spec_find(h, n) is Some
}

/// Find the first occurrence of `needle` in `hay`.
pub fn find_sub(hay: &Vec<char>, needle: &Vec<char>) -> (r: Option<usize>)
    ensures
        match r {
            Some(i) => spec_find(hay@, needle@) == Some(i as int) && i + needle@.len()
                <= hay@.len(),
            None => spec_find(hay@, needle@) is None,
        },
{
    let hn: usize = hay.len();
    let nn: usize = needle.len();
    if nn > hn {
        return None;
    }
    let mut i: usize = 0;
    while i <= hn - nn
        invariant
            0 <= i <= hn - nn + 1,
            nn <= hn,
            hn == hay@.len(),
            nn == needle@.len(),
            spec_find(hay@, needle@) == spec_find_from(hay@, needle@, i as int),
        decreases hn - i,
    {
        let mut j: usize = 0;
        let mut mismatch: bool = false;
        while j < nn && !mismatch
            invariant
                0 <= j <= nn,
                i + nn <= hn,
                hn == hay@.len(),
                nn == needle@.len(),
                !mismatch ==> (forall|k: int|
                    0 <= k < j ==> hay@[i + k] == #[trigger] needle@[k]),
                mismatch ==> (exists|k: int|
                    0 <= k < nn && hay@[i + k] != #[trigger] needle@[k]),
            decreases nn - j, (if mismatch { 0int } else { 1int }),
        {
            if hay[i + j] != needle[j] {
                mismatch = true;
            } else {
                j = j + 1;
            }
        }
        if !mismatch {
            proof {
                assert(hay@.subrange(i as int, i as int + nn as int) =~= needle@) by {
                    assert(forall|k: int|
                        0 <= k < nn ==> #[trigger] hay@.subrange(i as int, i as int + nn as int)[k]
                            == hay@[i + k]);
                }
            }
            return Some(i);
        }
        proof {
            assert(hay@.subrange(i as int, i as int + nn as int) != needle@) by {
                let w = choose|k: int|
                    0 <= k < nn && hay@[i + k] != #[trigger] needle@[k];
                assert(hay@.subrange(i as int, i as int + nn as int)[w] == hay@[i + w]);
                assert(hay@.subrange(i as int, i as int + nn as int)[w] != needle@[w]);
            }
        }
        i = i + 1;
    }
    proof {
        assert(spec_find_from(hay@, needle@, i as int) is None);
    }
    None
}

/// What a search result means: a found index is the first match at or
/// after `i`, and `None` means nothing fits anywhere from `i` on.
pub proof fn lemma_find_from_props(h: Seq<char>, n: Seq<char>, i: int)
    requires
        0 <= i,
    ensures
        match spec_find_from(h, n, i) {
            Some(p) => i <= p && p + n.len() <= h.len() && h.subrange(p, p + n.len() as int) == n
                && (forall|q: int|
                i <= q < p ==> #[trigger] h.subrange(q, q + n.len() as int) != n),
            None => forall|q: int|
                i <= q && q + n.len() <= h.len() ==> #[trigger] h.subrange(q, q + n.len() as int)
                    != n,
        },
    decreases h.len() - i + 1,
{
    if i + n.len() > h.len() {
    } else if h.subrange(i, i + n.len() as int) == n {
    } else {
        lemma_find_from_props(h, n, i + 1);
    }
}

/// An occurrence anywhere makes the search succeed.
pub proof fn lemma_matches_implies_contains(h: Seq<char>, n: Seq<char>, p: int)
    requires
        0 <= p,
        p + n.len() <= h.len(),
        h.subrange(p, p + n.len() as int) == n,
    ensures
        spec_contains(h, n),
{
    lemma_find_from_props(h, n, 0);
}

/// What a character search result means.
pub proof fn lemma_find_char_from_props(h: Seq<char>, c: char, i: int)
    requires
        0 <= i,
    ensures
        match spec_find_char_from(h, c, i) {
            Some(p) => i <= p < h.len() && h[p] == c && (forall|q: int|
                i <= q < p ==> h[q] != c),
            None => forall|q: int| i <= q < h.len() ==> h[q] != c,
        },
    decreases h.len() - i + 1,
{
    if i >= h.len() {
    } else if h[i] == c {
    } else {
        lemma_find_char_from_props(h, c, i + 1);
    }
}

/// The first index at or after `i` holding character `c`, if any.
pub open spec fn spec_find_char_from(h: Seq<char>, c: char, i: int) -> Option<int>
    decreases h.len() - i,
{
    if i >= h.len() || i < 0 {
        None
    } else if h[i] == c {
        Some(i)
    } else {
        spec_find_char_from(h, c, i + 1)
    }
}

/// Find the first occurrence of `c` in `hay` at or after `from`.
pub fn find_char_from(hay: &Vec<char>, c: char, from: usize) -> (r: Option<usize>)
    ensures
        match r {
            Some(i) => spec_find_char_from(hay@, c, from as int) == Some(i as int) && from <= i
                < hay@.len(),
            None => spec_find_char_from(hay@, c, from as int) is None,
        },
{
    let n: usize = hay.len();
    if from >= n {
        return None;
    }
    let mut i: usize = from;
    while i < n
        invariant
            from <= i <= n,
            n == hay@.len(),
            spec_find_char_from(hay@, c, from as int) == spec_find_char_from(hay@, c, i as int),
        decreases n - i,
    {
        if hay[i] == c {
            return Some(i);
        }
        i = i + 1;
    }
    None
}

/// The characters of `s`, as a vector.
pub fn to_char_vec(s: &str) -> (r: Vec<char>)
    ensures
        r@ == s@,
{
    let n: usize = s.unicode_len();
    let mut r: Vec<char> = Vec::new();
    let mut i: usize = 0;
    while i < n
        invariant
            0 <= i <= n,
            n == s@.len(),
            r@ == s@.subrange(0, i as int),
        decreases n - i,
    {
        r.push(s.get_char(i));
        proof {
            assert(s@.subrange(0, i as int).push(s@[i as int]) =~= s@.subrange(0, i as int + 1));
        }
        i = i + 1;
    }
    proof {
        assert(s@.subrange(0, n as int) =~= s@);
    }
    r
}

/// Relies on `core::iter::Iterator::collect` to assemble a `String` from
/// its characters.
#[verifier::external_body]
pub fn string_from_chars(v: &Vec<char>) -> (r: String)
    ensures
        r@ == v@,
{
    v.iter().collect()
}

} // verus!
