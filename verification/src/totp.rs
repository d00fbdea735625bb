//! TOTP secrets: normalizing a raw Base32 secret or an `otpauth://` URI, and
//! generating the current code.
use vstd::prelude::*;
use vstd::slice::slice_subrange;
use vstd::utf8::*;
use vstd::string::StringExecFns;
use crate::clock::{since_unix_epoch, system_now, whole_seconds};
use crate::text::{
    ascii_lower, ascii_upper, chars_of, find_char, index_of, is_first_index, is_unicode_whitespace,
    lemma_index_of_is,
    is_whitespace, lemma_index_of_bounds, lemma_trimmed_no_whitespace, string_from_chars,
    to_ascii_lower, to_ascii_upper, trimmed, utf8_decode,
};

verus! {

broadcast use vstd::string::group_string_axioms;

/// Length in seconds of one TOTP window.
pub const TOTP_PERIOD_SECONDS: u64 = 30;
/// 80 bits: a common minimum for TOTP seeds.
pub const MIN_TOTP_SECRET_BYTES: usize = 10;

/// Errors of TOTP code generation.
#[derive(Debug)]
pub enum TotpError {
    InvalidSecret,
    GenerationFailed,
}

// ---------------------------------------------------------------------------
// Percent decoding
// ---------------------------------------------------------------------------

/// The value of a hexadecimal digit.
pub open spec fn hex_value(b: u8) -> Option<u8> {
    if 0x30 <= b <= 0x39 {
        Some((b - 0x30) as u8)
    } else if 0x61 <= b <= 0x66 {
        Some((b - 0x61 + 10) as u8)
    } else if 0x41 <= b <= 0x46 {
        Some((b - 0x41 + 10) as u8)
    } else {
        None
    }
}

/// Percent decoding of bytes: `%XY` is the byte with hex digits `X` and `Y`,
/// `+` is a space, every other byte stands for itself; `None` for a `%` not
/// followed by two more bytes that are hex digits.
pub open spec fn percent_decode_bytes(b: Seq<u8>) -> Option<Seq<u8>>
    decreases b.len(),
{
    if b.len() == 0 {
        Some(Seq::empty())
    } else if b[0] == 0x25 {
        if b.len() < 3 {
            None
        } else {
            match (hex_value(b[1]), hex_value(b[2])) {
                (Some(hi), Some(lo)) => match percent_decode_bytes(b.skip(3)) {
                    Some(rest) => Some(seq![(hi * 16 + lo) as u8] + rest),
                    None => None,
                },
                _ => None,
            }
        }
    } else {
        let first: u8 = if b[0] == 0x2b {
            0x20
        } else {
            b[0]
        };
        match percent_decode_bytes(b.skip(1)) {
            Some(rest) => Some(seq![first] + rest),
            None => None,
        }
    }
}

/// The text that percent-decoding `s` gives: `None` where decoding fails or
/// its bytes are not valid UTF-8.
pub open spec fn percent_decoded_text(s: Seq<char>) -> Option<Seq<char>> {
    match percent_decode_bytes(encode_utf8(s)) {
        Some(d) => if valid_utf8(d) {
            Some(decode_utf8(d))
        } else {
            None
        },
        None => None,
    }
}

/// `r` holds the text that `s` describes.
pub open spec fn same_text(r: Option<String>, s: Option<Seq<char>>) -> bool {
    match (r, s) {
        (Some(x), Some(y)) => x@ == y,
        (None, None) => true,
        _ => false,
    }
}

fn from_hex(b: u8) -> (r: Option<u8>)
    ensures
        r == hex_value(b),
{
    if 0x30 <= b && b <= 0x39 {
        Some(b - 0x30)
    } else if 0x61 <= b && b <= 0x66 {
        Some(b - 0x61 + 10)
    } else if 0x41 <= b && b <= 0x46 {
        Some(b - 0x41 + 10)
    } else {
        None
    }
}

/// Percent-decodes `input`; the decoded bytes must be valid UTF-8.
pub fn percent_decode(input: &str) -> (r: Option<String>)
    ensures
        same_text(r, percent_decoded_text(input@)),
{
    let bytes = input.as_bytes();
    let n = bytes.len();
    let mut out: Vec<u8> = Vec::new();
    let mut i: usize = 0;
    proof {
        assert(bytes@.skip(0) =~= bytes@);
        match percent_decode_bytes(bytes@) {
            Some(rest) => {
                assert(out@ + rest =~= rest);
            },
            None => {},
        }
    }
    while i < n
        invariant
            n == bytes@.len(),
            bytes@ == encode_utf8(input@),
            i <= n,
            percent_decode_bytes(bytes@) == match percent_decode_bytes(bytes@.skip(i as int)) {
                Some(rest) => Some(out@ + rest),
                None => None::<Seq<u8>>,
            },
        decreases n - i,
    {
        let ghost tail = bytes@.skip(i as int);
        let b = bytes[i];
        assert(tail[0] == b);
        if b == 0x25 {
            if n - i <= 2 {
                return None;
            }
            assert(tail[1] == bytes@[i + 1]);
            assert(tail[2] == bytes@[i + 2]);
            let hi = match from_hex(bytes[i + 1]) {
                Some(h) => h,
                None => return None,
            };
            let lo = match from_hex(bytes[i + 2]) {
                Some(l) => l,
                None => return None,
            };
            let v: u8 = hi * 16 + lo;
            out.push(v);
            assert(tail.skip(3) =~= bytes@.skip(i + 3));
            proof {
                let ghost prev = out@.drop_last();
                match percent_decode_bytes(bytes@.skip(i + 3)) {
                    Some(rest) => {
                        assert(prev + (seq![v] + rest) =~= out@ + rest);
                    },
                    None => {},
                }
            }
            i = i + 3;
        } else {
            let v: u8 = if b == 0x2b {
                0x20
            } else {
                b
            };
            out.push(v);
            assert(tail.skip(1) =~= bytes@.skip(i + 1));
            proof {
                let ghost prev = out@.drop_last();
                match percent_decode_bytes(bytes@.skip(i + 1)) {
                    Some(rest) => {
                        assert(prev + (seq![v] + rest) =~= out@ + rest);
                    },
                    None => {},
                }
            }
            i = i + 1;
        }
    }
    assert(bytes@.skip(n as int) =~= Seq::<u8>::empty());
    assert(out@ + Seq::<u8>::empty() =~= out@);
    utf8_decode(out)
}


// ---------------------------------------------------------------------------
// otpauth:// URIs
// ---------------------------------------------------------------------------

pub open spec fn secret_word() -> Seq<char> {
    seq!['s', 'e', 'c', 'r', 'e', 't']
}

/// `k` is "secret" up to ASCII case.
pub open spec fn is_secret_key(k: Seq<char>) -> bool {
    &&& k.len() == 6
    &&& forall|i: int| 0 <= i < 6 ==> ascii_lower(#[trigger] k[i]) == secret_word()[i]
}

/// The value of the first `key=value` pair whose key is "secret" (any ASCII
/// case) in a query of `&`-separated pairs; pairs without `=` are skipped.
pub open spec fn find_secret(q: Seq<char>) -> Option<Seq<char>>
    decreases q.len(),
{
    let e = index_of(q, '&');
    let seg = if e < 0 {
        q
    } else {
        q.take(e)
    };
    let k = index_of(seg, '=');
    if k >= 0 && is_secret_key(seg.take(k)) {
        Some(seg.skip(k + 1))
    } else if e < 0 {
        None
    } else {
        proof {
            lemma_index_of_bounds(q, '&');
        }
        find_secret(q.skip(e + 1))
    }
}

/// A sequence without a first `c` holds no `c` at all.
proof fn lemma_index_of_absent(s: Seq<char>, c: char)
    requires
        index_of(s, c) < 0,
    ensures
        forall|j: int| 0 <= j < s.len() ==> s[j] != c,
    decreases s.len(),
{
    if s.len() > 0 {
        let init = s.drop_last();
        lemma_index_of_bounds(init, c);
        if index_of(init, c) >= 0 {
            let i = index_of(init, c);
            assert(is_first_index(s, c, i)) by {
                assert forall|j: int| 0 <= j < i implies s[j] != c by {
                    assert(s[j] == init[j]);
                }
            }
        } else {
            lemma_index_of_absent(init, c);
            assert forall|j: int| 0 <= j < s.len() implies s[j] != c by {
                if j < init.len() {
                    assert(s[j] == init[j]);
                } else if s[j] == c {
                    assert(is_first_index(s, c, j)) by {
                        assert forall|l: int| 0 <= l < j implies s[l] != c by {
                            assert(s[l] == init[l]);
                        }
                    }
                }
            }
        }
    }
}

/// Where the first `c` of `a + b` stands: in `a` if `a` holds one, else
/// after `a` in `b`.
proof fn lemma_index_of_concat(a: Seq<char>, b: Seq<char>, c: char)
    ensures
        index_of(a + b, c) == (if index_of(a, c) >= 0 {
            index_of(a, c)
        } else if index_of(b, c) >= 0 {
            a.len() + index_of(b, c)
        } else {
            -1
        }),
{
    let x = a + b;
    lemma_index_of_bounds(a, c);
    lemma_index_of_bounds(b, c);
    if index_of(a, c) >= 0 {
        let i = index_of(a, c);
        assert(is_first_index(x, c, i)) by {
            assert forall|j: int| 0 <= j < i implies x[j] != c by {
                assert(x[j] == a[j]);
            }
        }
        lemma_index_of_is(x, c, i);
    } else {
        lemma_index_of_absent(a, c);
        if index_of(b, c) >= 0 {
            let i = a.len() + index_of(b, c);
            assert(is_first_index(x, c, i)) by {
                assert(x[i] == b[index_of(b, c)]);
                assert forall|j: int| 0 <= j < i implies x[j] != c by {
                    if j < a.len() {
                        assert(x[j] == a[j]);
                    } else {
                        assert(x[j] == b[j - a.len()]);
                    }
                }
            }
            lemma_index_of_is(x, c, i);
        } else {
            lemma_index_of_absent(b, c);
            assert(!exists|i: int| is_first_index(x, c, i)) by {
                if exists|i: int| is_first_index(x, c, i) {
                    let i = choose|i: int| is_first_index(x, c, i);
                    if i < a.len() {
                        assert(x[i] == a[i]);
                    } else {
                        assert(x[i] == b[i - a.len()]);
                    }
                }
            }
        }
    }
}

/// `s` holds no `&`, so it is part of one pair of a query.
pub open spec fn no_ampersand(s: Seq<char>) -> bool {
    forall|j: int| 0 <= j < s.len() ==> s[j] != '&'
}

/// `seg` is a pair (or a text without `=`) whose key is not "secret".
pub open spec fn other_pair(seg: Seq<char>) -> bool {
    !(index_of(seg, '=') >= 0 && is_secret_key(seg.take(index_of(seg, '='))))
}

proof fn lemma_no_ampersand_index(s: Seq<char>)
    requires
        no_ampersand(s),
    ensures
        index_of(s, '&') == -1,
{
    lemma_index_of_bounds(s, '&');
}

/// A pair whose key is not `secret` is passed over: what is found in
/// `seg & rest` is what is found in `rest`.
pub proof fn lemma_find_secret_skips_other_pair(seg: Seq<char>, rest: Seq<char>)
    requires
        no_ampersand(seg),
        other_pair(seg),
    ensures
        find_secret(seg + seq!['&'] + rest) == find_secret(rest),
{
    let b = seq!['&'] + rest;
    let x = seg + b;
    assert(seg + seq!['&'] + rest =~= x);
    lemma_no_ampersand_index(seg);
    assert(is_first_index(b, '&', 0));
    lemma_index_of_is(b, '&', 0);
    lemma_index_of_concat(seg, b, '&');
    assert(index_of(x, '&') == seg.len());
    assert(x.take(seg.len() as int) =~= seg);
    assert(x.skip(seg.len() as int + 1) =~= rest);
}

/// The value of a leading `secret=v` pair is found, whatever pairs follow.
pub proof fn lemma_find_secret_leading_pair(v: Seq<char>, rest: Seq<char>)
    requires
        no_ampersand(v),
    ensures
        find_secret(secret_word() + seq!['='] + v) == Some(v),
        find_secret(secret_word() + seq!['='] + v + seq!['&'] + rest) == Some(v),
{
    let s = secret_word() + seq!['='] + v;
    assert(no_ampersand(s)) by {
        assert forall|j: int| 0 <= j < s.len() implies s[j] != '&' by {
            if j >= 7 {
                assert(s[j] == v[j - 7]);
            }
        }
    }
    assert(is_first_index(s, '=', 6));
    lemma_index_of_is(s, '=', 6);
    assert(s.take(6) =~= secret_word());
    assert(is_secret_key(s.take(6)));
    assert(s.skip(7) =~= v);
    lemma_no_ampersand_index(s);
    let b = seq!['&'] + rest;
    let x = s + b;
    assert(s + seq!['&'] + rest =~= x);
    assert(is_first_index(b, '&', 0));
    lemma_index_of_is(b, '&', 0);
    lemma_index_of_concat(s, b, '&');
    assert(x.take(s.len() as int) =~= s);
}

/// A `secret=v` pair appended to a query that has no secret pair is found,
/// however many other pairs come before it.
pub proof fn lemma_find_secret_appended(p: Seq<char>, v: Seq<char>)
    requires
        find_secret(p) is None,
        no_ampersand(v),
    ensures
        find_secret(p + seq!['&'] + secret_word() + seq!['='] + v) == Some(v),
    decreases p.len(),
{
    let tail = secret_word() + seq!['='] + v;
    assert(p + seq!['&'] + secret_word() + seq!['='] + v =~= p + seq!['&'] + tail);
    lemma_find_secret_leading_pair(v, Seq::empty());
    lemma_index_of_bounds(p, '&');
    let e = index_of(p, '&');
    if e < 0 {
        lemma_index_of_absent(p, '&');
        assert(other_pair(p));
        lemma_find_secret_skips_other_pair(p, tail);
        assert(find_secret(p + seq!['&'] + tail) == Some(v));
    } else {
        let seg = p.take(e);
        let rest = p.skip(e + 1);
        assert(no_ampersand(seg));
        assert(p =~= seg + seq!['&'] + rest);
        assert(other_pair(seg));
        lemma_find_secret_skips_other_pair(seg, rest);
        lemma_find_secret_appended(rest, v);
        assert(rest + seq!['&'] + secret_word() + seq!['='] + v =~= rest + seq!['&'] + tail);
        assert(p + seq!['&'] + tail =~= seg + seq!['&'] + (rest + seq!['&'] + tail));
        lemma_find_secret_skips_other_pair(seg, rest + seq!['&'] + tail);
        assert(find_secret(p + seq!['&'] + tail) == Some(v));
    }
}

/// The secret of an `otpauth://` URI: the percent-decoded value of its
/// `secret` query parameter.
pub open spec fn otpauth_secret(uri: Seq<char>) -> Option<Seq<char>> {
    let q = index_of(uri, '?');
    if q < 0 {
        None
    } else {
        match find_secret(uri.skip(q + 1)) {
            Some(v) => percent_decoded_text(v),
            None => None,
        }
    }
}

fn is_secret_key_exec(k: &[char]) -> (r: bool)
    ensures
        r == is_secret_key(k@),
{
    if k.len() != 6 {
        return false;
    }
    let r = to_ascii_lower(k[0]) == 's' && to_ascii_lower(k[1]) == 'e' && to_ascii_lower(k[2])
        == 'c' && to_ascii_lower(k[3]) == 'r' && to_ascii_lower(k[4]) == 'e' && to_ascii_lower(
        k[5],
    ) == 't';
    proof {
        if r {
            assert forall|i: int| 0 <= i < 6 implies ascii_lower(#[trigger] k@[i])
                == secret_word()[i] by {
                if i == 0 {
                } else if i == 1 {
                } else if i == 2 {
                } else if i == 3 {
                } else if i == 4 {
                } else {
                }
            }
        } else {
            if is_secret_key(k@) {
                assert(ascii_lower(k@[0]) == secret_word()[0]);
                assert(ascii_lower(k@[1]) == secret_word()[1]);
                assert(ascii_lower(k@[2]) == secret_word()[2]);
                assert(ascii_lower(k@[3]) == secret_word()[3]);
                assert(ascii_lower(k@[4]) == secret_word()[4]);
                assert(ascii_lower(k@[5]) == secret_word()[5]);
            }
        }
    }
    r
}

fn extract_secret_from_otpauth_uri(uri: &str) -> (r: Option<String>)
    ensures
        same_text(r, otpauth_secret(uri@)),
{
    let cs = chars_of(uri);
    let n = cs.len();
    let q = match find_char(cs.as_slice(), '?') {
        Some(q) => q,
        None => return None,
    };
    let mut cur: &[char] = slice_subrange(cs.as_slice(), q + 1, n);
    assert(cur@ =~= uri@.skip(q + 1));
    loop
        invariant
            find_secret(uri@.skip(q + 1)) == find_secret(cur@),
            index_of(uri@, '?') == q,
        decreases cur@.len(),
    {
        let cl = cur.len();
        let e = find_char(cur, '&');
        let seg_end = match e {
            Some(e) => e,
            None => cl,
        };
        let seg = slice_subrange(cur, 0, seg_end);
        assert(seg@ =~= (if e is None {
            cur@
        } else {
            cur@.take(seg_end as int)
        }));
        match find_char(seg, '=') {
            Some(k) => {
                let key = slice_subrange(seg, 0, k);
                assert(key@ =~= seg@.take(k as int));
                if is_secret_key_exec(key) {
                    let value = slice_subrange(seg, k + 1, seg.len());
                    assert(value@ =~= seg@.skip(k + 1));
                    let text = string_from_chars(value);
                    return percent_decode(text.as_str());
                }
            },
            None => {},
        }
        match e {
            None => return None,
            Some(e) => {
                let next = slice_subrange(cur, e + 1, cl);
                assert(next@ =~= cur@.skip(e + 1));
                cur = next;
            },
        }
    }
}


// ---------------------------------------------------------------------------
// Normalizing secrets
// ---------------------------------------------------------------------------

pub open spec fn otpauth_scheme() -> Seq<char> {
    seq!['o', 't', 'p', 'a', 'u', 't', 'h', ':', '/', '/']
}

/// `s` starts with "otpauth://" up to ASCII case.
pub open spec fn has_otpauth_prefix(s: Seq<char>) -> bool {
    &&& s.len() >= 10
    &&& forall|i: int| 0 <= i < 10 ==> ascii_lower(#[trigger] s[i]) == otpauth_scheme()[i]
}

/// `s` without whitespace, in ASCII upper case.
pub open spec fn clean_secret(s: Seq<char>) -> Seq<char>
    decreases s.len(),
{
    if s.len() == 0 {
        Seq::empty()
    } else if is_unicode_whitespace(s.last()) {
        clean_secret(s.drop_last())
    } else {
        clean_secret(s.drop_last()).push(ascii_upper(s.last()))
    }
}

/// The secret text that `input` holds before Base32 is checked: the trimmed
/// input itself, or the `secret` parameter of an `otpauth://` URI, without
/// whitespace and in ASCII upper case.
pub open spec fn secret_candidate(input: Seq<char>) -> Option<Seq<char>> {
    let raw = trimmed(input);
    if raw.len() == 0 {
        None
    } else {
        let candidate = if has_otpauth_prefix(raw) {
            otpauth_secret(raw)
        } else {
            Some(raw)
        };
        match candidate {
            Some(c) => Some(clean_secret(c)),
            None => None,
        }
    }
}

/// The RFC 4648 Base32 alphabet (upper case, no padding).
pub open spec fn is_base32_char(c: char) -> bool {
    ||| 'A' <= c <= 'Z'
    ||| '2' <= c <= '7'
}

pub open spec fn all_base32(s: Seq<char>) -> bool {
    forall|i: int| 0 <= i < s.len() ==> is_base32_char(#[trigger] s[i])
}

/// The number of bytes that `n` Base32 characters decode to.
pub open spec fn base32_decoded_len(n: int) -> int {
    n * 5 / 8
}

/// The normalized secret for `input`: the candidate, when it is Base32 and
/// decodes to at least 10 bytes.
pub open spec fn normalized_secret(input: Seq<char>) -> Option<Seq<char>> {
    match secret_candidate(input) {
        Some(n) => if all_base32(n) && base32_decoded_len(n.len() as int) >= 10 {
            Some(n)
        } else {
            None
        },
        None => None,
    }
}

#[verifier::external_type_specification]
#[verifier::external_body]
pub struct ExSecretParseError(totp_rs::SecretParseError);

/// The 5-bit value of a Base32 character: `A`-`Z` are 0 to 25, `2`-`7` are
/// 26 to 31.
pub open spec fn base32_value(c: char) -> int {
    if 'A' <= c <= 'Z' {
        c as int - 65
    } else {
        c as int - 24
    }
}

/// Bit `k` of the Base32 text `s` read as a string of 5-bit values, most
/// significant bit first; 0 past the end.
pub open spec fn base32_bit(s: Seq<char>, k: int) -> int {
    if 0 <= k && k / 5 < s.len() {
        let v = base32_value(s[k / 5]);
        let d = k % 5;
        (if d == 0 {
            v / 16
        } else if d == 1 {
            v / 8
        } else if d == 2 {
            v / 4
        } else if d == 3 {
            v / 2
        } else {
            v
        }) % 2
    } else {
        0
    }
}

/// Byte `i` of what the Base32 text `s` decodes to: its bits `8 * i` to
/// `8 * i + 7`.
pub open spec fn base32_byte(s: Seq<char>, i: int) -> int {
    128 * base32_bit(s, 8 * i) + 64 * base32_bit(s, 8 * i + 1) + 32 * base32_bit(s, 8 * i + 2) + 16
        * base32_bit(s, 8 * i + 3) + 8 * base32_bit(s, 8 * i + 4) + 4 * base32_bit(s, 8 * i + 5)
        + 2 * base32_bit(s, 8 * i + 6) + base32_bit(s, 8 * i + 7)
}

/// The bytes that the unpadded RFC 4648 Base32 text `s` stands for: its
/// 5-bit values concatenated, cut into `5 * len / 8` whole bytes; the bits
/// left over are dropped.
pub open spec fn spec_base32_decode(s: Seq<char>) -> Seq<u8> {
    Seq::new((s.len() * 5 / 8) as nat, |i: int| base32_byte(s, i) as u8)
}

/// `Secret::Encoded(s).to_bytes()`, which calls `base32::decode` with the
/// RFC 4648 alphabet and no padding. As base32's source shows, it succeeds
/// exactly when every character is in `A`-`Z` or `2`-`7`, and gives the
/// bytes that `spec_base32_decode` describes.
#[verifier::external_body]
fn decode_base32_secret(s: String) -> (r: Result<Vec<u8>, totp_rs::SecretParseError>)
    ensures
        r is Ok <==> all_base32(s@),
        r matches Ok(v) ==> v@ == spec_base32_decode(s@) && v@.len() == base32_decoded_len(
            s@.len() as int,
        ),
{
    totp_rs::Secret::Encoded(s).to_bytes()
}

fn has_otpauth_prefix_exec(s: &[char]) -> (r: bool)
    ensures
        r == has_otpauth_prefix(s@),
{
    if s.len() < 10 {
        return false;
    }
    let scheme = ['o', 't', 'p', 'a', 'u', 't', 'h', ':', '/', '/'];
    let mut i: usize = 0;
    while i < 10
        invariant
            s@.len() >= 10,
            i <= 10,
            scheme@ == otpauth_scheme(),
            forall|j: int| 0 <= j < i ==> ascii_lower(#[trigger] s@[j]) == otpauth_scheme()[j],
        decreases 10 - i,
    {
        if to_ascii_lower(s[i]) != scheme[i] {
            return false;
        }
        i = i + 1;
    }
    true
}

/// The secret text of `input` before its Base32 is checked (see
/// `secret_candidate`).
pub fn candidate_secret(input: &str) -> (r: Option<String>)
    ensures
        same_text(r, secret_candidate(input@)),
{
    let raw_str = input.trim();
    let raw = chars_of(raw_str);
    if raw.len() == 0 {
        return None;
    }
    let candidate: Vec<char> = if has_otpauth_prefix_exec(raw.as_slice()) {
        match extract_secret_from_otpauth_uri(raw_str) {
            Some(v) => chars_of(v.as_str()),
            None => return None,
        }
    } else {
        raw
    };
    let mut out: Vec<char> = Vec::new();
    let n = candidate.len();
    let mut i: usize = 0;
    while i < n
        invariant
            n == candidate@.len(),
            i <= n,
            out@ == clean_secret(candidate@.take(i as int)),
        decreases n - i,
    {
        let c = candidate[i];
        assert(candidate@.take(i + 1).drop_last() =~= candidate@.take(i as int));
        if !is_whitespace(c) {
            out.push(to_ascii_upper(c));
        }
        i = i + 1;
    }
    assert(candidate@.take(n as int) =~= candidate@);
    Some(string_from_chars(out.as_slice()))
}

/// Accepts either a raw Base32 secret or a basic `otpauth://` URI and returns
/// the normalized upper-case Base32 secret without whitespace.
pub fn normalize_secret(input: &str) -> (r: Option<String>)
    ensures
        same_text(r, normalized_secret(input@)),
{
    let normalized = candidate_secret(input)?;
    let copy = normalized.clone();
    let decoded = match decode_base32_secret(copy) {
        Ok(d) => d,
        Err(_) => return None,
    };
    if decoded.len() < MIN_TOTP_SECRET_BYTES {
        return None;
    }
    Some(normalized)
}

/// Whether `secret` is a well-formed TOTP secret of a minimally reasonable
/// size.
pub fn validate_secret(secret: &str) -> (r: bool)
    ensures
        r == normalized_secret(secret@) is Some,
{
    normalize_secret(secret).is_some()
}

proof fn lemma_clean_base32(s: Seq<char>)
    requires
        all_base32(s),
    ensures
        clean_secret(s) == s,
    decreases s.len(),
{
    if s.len() > 0 {
        let init = s.drop_last();
        assert(all_base32(init)) by {
            assert forall|i: int| 0 <= i < init.len() implies is_base32_char(#[trigger] init[i]) by {
                assert(init[i] == s[i]);
            }
        }
        lemma_clean_base32(init);
        assert(is_base32_char(s[s.len() - 1]));
        assert(init.push(s.last()) =~= s);
    }
}

/// Normalizing is idempotent: a normalized secret normalizes to itself.
pub proof fn lemma_normalize_idempotent(input: Seq<char>)
    requires
        normalized_secret(input) is Some,
    ensures
        normalized_secret(normalized_secret(input)->0) == normalized_secret(input),
{
    let n = normalized_secret(input)->0;
    assert forall|i: int| 0 <= i < n.len() implies !is_unicode_whitespace(#[trigger] n[i]) by {
        assert(is_base32_char(n[i]));
    }
    lemma_trimmed_no_whitespace(n);
    assert(n.len() >= 16);
    assert(!has_otpauth_prefix(n)) by {
        assert(is_base32_char(n[7]));
        assert(otpauth_scheme()[7] == ':');
    }
    lemma_clean_base32(n);
}

// ---------------------------------------------------------------------------
// Codes and the clock
// ---------------------------------------------------------------------------

#[verifier::external_type_specification]
#[verifier::external_body]
pub struct ExTotpUrlError(totp_rs::TotpUrlError);

/// The RFC 6238 code (HMAC-SHA1) of `secret` with `digits` digits and a
/// period of `step` seconds at Unix time `time`.
pub uninterp spec fn spec_totp_sha1_code(secret: Seq<u8>, digits: usize, step: u64, time: u64) -> Seq<char>;

/// Every character of `s` is an ASCII decimal digit.
pub open spec fn all_ascii_digits(s: Seq<char>) -> bool {
    forall|i: int| 0 <= i < s.len() ==> '0' <= #[trigger] s[i] <= '9'
}

/// `TOTP::new(Algorithm::SHA1, digits, skew, step, secret)`, then
/// `TOTP::generate(time)`. As totp-rs's source shows, `new` succeeds exactly
/// when `digits` is 6 to 8 and the secret has at least 16 bytes, and
/// `generate` writes the code as `digits` zero-padded decimal digits; the
/// code itself is named by `spec_totp_sha1_code`. A period of 0 would make
/// `generate` divide by zero, so it is not admitted.
#[verifier::external_body]
fn totp_sha1_code_at(secret: Vec<u8>, digits: usize, skew: u8, step: u64, time: u64) -> (r: Result<
    String,
    totp_rs::TotpUrlError,
>)
    requires
        step > 0,
    ensures
        r is Ok <==> (6 <= digits <= 8 && secret@.len() >= 16),
        r matches Ok(c) ==> {
            &&& c@ == spec_totp_sha1_code(secret@, digits, step, time)
            &&& c@.len() == digits
            &&& all_ascii_digits(c@)
        },
{
    match totp_rs::TOTP::new(totp_rs::Algorithm::SHA1, digits, skew, step, secret) {
        Ok(t) => Ok(t.generate(time)),
        Err(e) => Err(e),
    }
}

/// The 6-digit SHA-1 TOTP code (30-second period, one period of allowed
/// skew) at Unix time `time` for a Base32 secret string or an `otpauth://`
/// URI.
pub fn generate_code_at(secret_input: &str, time: u64) -> (r: Result<String, TotpError>)
    ensures
        match normalized_secret(secret_input@) {
            None => r matches Err(TotpError::InvalidSecret),
            Some(n) => if base32_decoded_len(n.len() as int) < 16 {
                r matches Err(TotpError::InvalidSecret)
            } else {
                r matches Ok(c) && c@ == spec_totp_sha1_code(spec_base32_decode(n), 6, 30, time)
            },
        },
        r matches Ok(c) ==> c@.len() == 6 && all_ascii_digits(c@),
{
    let secret_base32 = match normalize_secret(secret_input) {
        Some(s) => s,
        None => return Err(TotpError::InvalidSecret),
    };
    let secret = match decode_base32_secret(secret_base32) {
        Ok(s) => s,
        Err(_) => return Err(TotpError::InvalidSecret),
    };
    match totp_sha1_code_at(secret, 6, 1, TOTP_PERIOD_SECONDS, time) {
        Ok(code) => Ok(code),
        Err(_) => Err(TotpError::InvalidSecret),
    }
}

/// Generates the current 6-digit SHA-1 TOTP code from a Base32 secret string
/// or an `otpauth://` URI (see `generate_code_at`). The secret is checked
/// first; `GenerationFailed` then means that the system clock reads before
/// the Unix epoch.
pub fn generate_code(secret_input: &str) -> (r: Result<String, TotpError>)
    ensures
        match normalized_secret(secret_input@) {
            None => r matches Err(TotpError::InvalidSecret),
            Some(n) => if base32_decoded_len(n.len() as int) < 16 {
                r matches Err(TotpError::InvalidSecret)
            } else {
                match r {
                    Ok(c) => exists|t: u64|
                        c@ == #[trigger] spec_totp_sha1_code(spec_base32_decode(n), 6, 30, t),
                    Err(e) => e matches TotpError::GenerationFailed,
                }
            },
        },
        r matches Ok(c) ==> c@.len() == 6 && all_ascii_digits(c@),
{
    let now = unix_time_secs();
    let time = match now {
        Some(t) => t,
        None => 0,
    };
    let code = generate_code_at(secret_input, time)?;
    match now {
        Some(_) => Ok(code),
        None => Err(TotpError::GenerationFailed),
    }
}

/// Seconds since the Unix epoch by the system clock; `None` where the clock
/// reads before the epoch.
fn unix_time_secs() -> Option<u64> {
    match since_unix_epoch(&system_now()) {
        Ok(d) => Some(whole_seconds(&d)),
        Err(_) => None,
    }
}

/// How many seconds remain, at Unix time `now`, in the current TOTP window.
pub fn seconds_remaining_at(now: u64) -> (r: u64)
    ensures
        r == TOTP_PERIOD_SECONDS - now % TOTP_PERIOD_SECONDS,
        1 <= r <= TOTP_PERIOD_SECONDS,
{
    TOTP_PERIOD_SECONDS - (now % TOTP_PERIOD_SECONDS)
}

/// How many seconds remain in the current 30-second TOTP window; a clock
/// that reads before the Unix epoch counts as the epoch.
pub fn seconds_remaining() -> (r: u64)
    ensures
        1 <= r <= TOTP_PERIOD_SECONDS,
{
    let now = match unix_time_secs() {
        Some(t) => t,
        None => 0,
    };
    seconds_remaining_at(now)
}

/// The message shown to the user for each error.
impl TotpError {
    pub fn message(&self) -> (r: String)
        ensures
            r@ == totp_error_message(*self),
    {
        match self {
            TotpError::InvalidSecret => String::from_str("Invalid TOTP secret"),
            TotpError::GenerationFailed => String::from_str("Failed to generate TOTP code"),
        }
    }
}

pub open spec fn totp_error_message(e: TotpError) -> Seq<char> {
    match e {
        TotpError::InvalidSecret => "Invalid TOTP secret"@,
        TotpError::GenerationFailed => "Failed to generate TOTP code"@,
    }
}

} // verus!
