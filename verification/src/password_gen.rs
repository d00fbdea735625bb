//! Random password generation from a cryptographically seeded ChaCha20 RNG.
use vstd::prelude::*;
use vstd::utf8::*;
use rand::seq::SliceRandom;
use rand::SeedableRng;
use rand_chacha::ChaCha20Rng;
use crate::text::utf8_decode;

verus! {

broadcast use vstd::seq_lib::group_to_multiset_ensures;

pub const MIN_GENERATED_PASSWORD_LEN: usize = 8;
pub const MAX_GENERATED_PASSWORD_LEN: usize = 128;

/// What the generator is asked for.
#[derive(Clone)]
pub struct PasswordOptions {
    pub length: usize,
    pub use_uppercase: bool,
    pub use_digits: bool,
    pub use_symbols: bool,
}

impl Default for PasswordOptions {
    /// 20 characters drawn from every character class.
    fn default() -> (r: Self)
        ensures
            r.length == 20,
            r.use_uppercase,
            r.use_digits,
            r.use_symbols,
    {
        Self { length: 20, use_uppercase: true, use_digits: true, use_symbols: true }
    }
}

pub open spec fn lowercase_set() -> Seq<u8> {
    Seq::new(26, |i: int| (0x61 + i) as u8)
}

pub open spec fn uppercase_set() -> Seq<u8> {
    Seq::new(26, |i: int| (0x41 + i) as u8)
}

pub open spec fn digit_set() -> Seq<u8> {
    Seq::new(10, |i: int| (0x30 + i) as u8)
}

/// `!@#$%^&*()-_=+[]{}|;:,.<>?`
pub open spec fn symbol_set() -> Seq<u8> {
    seq![
        0x21u8, 0x40u8, 0x23u8, 0x24u8, 0x25u8, 0x5eu8, 0x26u8, 0x2au8, 0x28u8, 0x29u8, 0x2du8,
        0x5fu8, 0x3du8, 0x2bu8, 0x5bu8, 0x5du8, 0x7bu8, 0x7du8, 0x7cu8, 0x3bu8, 0x3au8, 0x2cu8,
        0x2eu8, 0x3cu8, 0x3eu8, 0x3fu8,
    ]
}

/// The bytes a password for `opts` is drawn from.
pub open spec fn charset(opts: PasswordOptions) -> Seq<u8> {
    lowercase_set() + (if opts.use_uppercase {
        uppercase_set()
    } else {
        Seq::empty()
    }) + (if opts.use_digits {
        digit_set()
    } else {
        Seq::empty()
    }) + (if opts.use_symbols {
        symbol_set()
    } else {
        Seq::empty()
    })
}

/// The requested length, clamped to 8..=128.
pub open spec fn generated_len(opts: PasswordOptions) -> int {
    if opts.length < 8 {
        8
    } else if opts.length > 128 {
        128
    } else {
        opts.length as int
    }
}

/// Some character of `s` is (the ASCII character of) a byte of `set`.
pub open spec fn has_char_of(s: Seq<char>, set: Seq<u8>) -> bool {
    exists|i: int| 0 <= i < s.len() && set.contains(#[trigger] s[i] as u8)
}

/// Every character of `s` is ASCII and a byte of `set`.
pub open spec fn all_chars_of(s: Seq<char>, set: Seq<u8>) -> bool {
    forall|i: int| 0 <= i < s.len() ==> (#[trigger] s[i] as u32) < 128 && set.contains(s[i] as u8)
}

#[verifier::external_type_specification]
#[verifier::external_body]
pub struct ExChaCha20Rng(ChaCha20Rng);

/// `ChaCha20Rng::from_rng(OsRng)`: a generator seeded from the operating
/// system's random source, or the error that source reports.
#[verifier::external_body]
fn new_rng() -> Result<ChaCha20Rng, rand::Error> {
    ChaCha20Rng::from_rng(rand::rngs::OsRng)
}

/// `SliceRandom::choose`: a random element of `set`, `None` only for an empty
/// set. Which element comes out is not claimed.
#[verifier::external_body]
fn choose_byte(set: &[u8], rng: &mut ChaCha20Rng) -> (r: Option<u8>)
    ensures
        r.is_some() == (set@.len() > 0),
        r matches Some(b) ==> set@.contains(b),
{
    set.choose(rng).copied()
}

/// `SliceRandom::shuffle`: a random permutation of `v`.
#[verifier::external_body]
fn shuffle_bytes(v: &mut Vec<u8>, rng: &mut ChaCha20Rng)
    ensures
        final(v)@.to_multiset() == old(v)@.to_multiset(),
{
    v.shuffle(rng);
}

fn byte_range(first: u8, count: u8) -> (r: Vec<u8>)
    requires
        first + count <= 256,
    ensures
        r@ == Seq::new(count as nat, |i: int| (first + i) as u8),
{
    let mut out: Vec<u8> = Vec::new();
    let mut i: u8 = 0;
    while i < count
        invariant
            first + count <= 256,
            i <= count,
            out@ == Seq::new(i as nat, |k: int| (first + k) as u8),
        decreases count - i,
    {
        out.push(first + i);
        i = i + 1;
        assert(out@ =~= Seq::new(i as nat, |k: int| (first + k) as u8));
    }
    out
}

fn symbols() -> (r: Vec<u8>)
    ensures
        r@ == symbol_set(),
{
    let v: Vec<u8> = vec![
        0x21u8, 0x40u8, 0x23u8, 0x24u8, 0x25u8, 0x5eu8, 0x26u8, 0x2au8, 0x28u8, 0x29u8, 0x2du8,
        0x5fu8, 0x3du8, 0x2bu8, 0x5bu8, 0x5du8, 0x7bu8, 0x7du8, 0x7cu8, 0x3bu8, 0x3au8, 0x2cu8,
        0x2eu8, 0x3cu8, 0x3eu8, 0x3fu8,
    ];
    assert(v@ =~= symbol_set());
    v
}

fn pick(set: &Vec<u8>, rng: &mut ChaCha20Rng) -> (r: u8)
    requires
        set@.len() > 0,
    ensures
        set@.contains(r),
{
    choose_byte(set.as_slice(), rng).unwrap()
}


pub open spec fn all_ascii_bytes(s: Seq<u8>) -> bool {
    forall|i: int| 0 <= i < s.len() ==> #[trigger] s[i] < 128
}

proof fn lemma_concat_ascii(a: Seq<u8>, b: Seq<u8>)
    requires
        all_ascii_bytes(a),
        all_ascii_bytes(b),
    ensures
        all_ascii_bytes(a + b),
{
    assert forall|i: int| 0 <= i < (a + b).len() implies #[trigger] (a + b)[i] < 128 by {
        if i < a.len() {
            assert((a + b)[i] == a[i]);
        } else {
            assert((a + b)[i] == b[i - a.len()]);
        }
    }
}

proof fn lemma_charset_ascii(opts: PasswordOptions)
    ensures
        all_ascii_bytes(charset(opts)),
{
    let e = Seq::<u8>::empty();
    assert(all_ascii_bytes(lowercase_set()));
    assert(all_ascii_bytes(uppercase_set()));
    assert(all_ascii_bytes(digit_set()));
    assert(all_ascii_bytes(symbol_set()));
    assert(all_ascii_bytes(e));
    let u = if opts.use_uppercase { uppercase_set() } else { e };
    let d = if opts.use_digits { digit_set() } else { e };
    let y = if opts.use_symbols { symbol_set() } else { e };
    lemma_concat_ascii(lowercase_set(), u);
    lemma_concat_ascii(lowercase_set() + u, d);
    lemma_concat_ascii(lowercase_set() + u + d, y);
}

/// ASCII bytes are valid UTF-8 and decode to the characters with the same
/// codes.
proof fn lemma_ascii_bytes_decode(bytes: Seq<u8>)
    requires
        all_ascii_bytes(bytes),
    ensures
        valid_utf8(bytes),
        decode_utf8(bytes) == bytes.map_values(|b: u8| b as char),
{
    let chars = bytes.map_values(|b: u8| b as char);
    assert(is_ascii_chars(chars)) by {
        assert forall|i: int| 0 <= i < chars.len() implies '\0' <= #[trigger] chars[i] <= '\u{7f}' by {
            assert(bytes[i] < 128);
        }
    }
    is_ascii_chars_encode_utf8(chars);
    assert(encode_utf8(chars) =~= bytes);
    encode_utf8_valid_utf8(chars);
    encode_utf8_decode_utf8(chars);
}

proof fn lemma_class_in_charset(opts: PasswordOptions, b: u8)
    requires
        lowercase_set().contains(b) || (opts.use_uppercase && uppercase_set().contains(b)) || (
        opts.use_digits && digit_set().contains(b)) || (opts.use_symbols && symbol_set().contains(b)),
    ensures
        charset(opts).contains(b),
{
    let e = Seq::<u8>::empty();
    let l = lowercase_set();
    let u = if opts.use_uppercase { uppercase_set() } else { e };
    let d = if opts.use_digits { digit_set() } else { e };
    let y = if opts.use_symbols { symbol_set() } else { e };
    let c = charset(opts);
    assert(c == l + u + d + y);
    if l.contains(b) {
        let w = choose|w: int| 0 <= w < l.len() && l[w] == b;
        assert(c[w] == b);
    } else if opts.use_uppercase && uppercase_set().contains(b) {
        let w = choose|w: int| 0 <= w < u.len() && u[w] == b;
        assert(c[l.len() + w] == b);
    } else if opts.use_digits && digit_set().contains(b) {
        let w = choose|w: int| 0 <= w < d.len() && d[w] == b;
        assert(c[l.len() + u.len() + w] == b);
    } else {
        let w = choose|w: int| 0 <= w < y.len() && y[w] == b;
        assert(c[l.len() + u.len() + d.len() + w] == b);
    }
}

proof fn lemma_permutation_keeps(before: Seq<u8>, after: Seq<u8>, set: Seq<u8>)
    requires
        after.to_multiset() == before.to_multiset(),
        forall|k: int| 0 <= k < before.len() ==> set.contains(#[trigger] before[k]),
    ensures
        after.len() == before.len(),
        forall|k: int| 0 <= k < after.len() ==> set.contains(#[trigger] after[k]),
{
    assert(after.len() == after.to_multiset().len());
    assert(before.len() == before.to_multiset().len());
    assert forall|k: int| 0 <= k < after.len() implies set.contains(#[trigger] after[k]) by {
        assert(after.contains(after[k]));
        assert(before.to_multiset().count(after[k]) > 0);
        assert(before.contains(after[k]));
        let j = choose|j: int| 0 <= j < before.len() && before[j] == after[k];
        assert(set.contains(before[j]));
    }
}

proof fn lemma_text_of_bytes(p: Seq<u8>, text: Seq<char>, set: Seq<u8>)
    requires
        all_ascii_bytes(p),
        text == decode_utf8(p),
        decode_utf8(p) == p.map_values(|b: u8| b as char),
        forall|k: int| 0 <= k < p.len() ==> set.contains(#[trigger] p[k]),
    ensures
        text.len() == p.len(),
        all_chars_of(text, set),
{
    assert forall|k: int| 0 <= k < text.len() implies (#[trigger] text[k] as u32) < 128
        && set.contains(text[k] as u8) by {
        assert(text[k] == p[k] as char);
        assert(p[k] < 128);
        assert(set.contains(p[k]));
    }
}

proof fn lemma_class_survives(before: Seq<u8>, p: Seq<u8>, text: Seq<char>, class: Seq<u8>, b: u8)
    requires
        p.to_multiset() == before.to_multiset(),
        before.contains(b),
        class.contains(b),
        all_ascii_bytes(p),
        text == p.map_values(|x: u8| x as char),
    ensures
        has_char_of(text, class),
{
    assert(before.to_multiset().count(b) > 0);
    assert(p.contains(b));
    let k = choose|k: int| 0 <= k < p.len() && p[k] == b;
    assert(text[k] == p[k] as char);
    assert(text[k] as u8 == b);
}

/// A password for `opts` drawn with `rng`: its length is the requested one
/// clamped to 8..=128, every character is drawn from the enabled character
/// classes, and it holds at least one lower-case letter and one character of
/// each other enabled class. Which characters are drawn, and where they
/// stand, is up to `rng`.
pub fn generate_with(opts: &PasswordOptions, rng: &mut ChaCha20Rng) -> (r: String)
    ensures
        r@.len() == generated_len(*opts),
        all_chars_of(r@, charset(*opts)),
        has_char_of(r@, lowercase_set()),
        opts.use_uppercase ==> has_char_of(r@, uppercase_set()),
        opts.use_digits ==> has_char_of(r@, digit_set()),
        opts.use_symbols ==> has_char_of(r@, symbol_set()),
{
    let lower = byte_range(0x61, 26);
    let upper = byte_range(0x41, 26);
    let digits = byte_range(0x30, 10);
    let syms = symbols();
    assert(lower@ =~= lowercase_set());
    assert(upper@ =~= uppercase_set());
    assert(digits@ =~= digit_set());

    let mut charset_v: Vec<u8> = Vec::new();
    charset_v.extend_from_slice(lower.as_slice());
    let mut required: Vec<u8> = Vec::new();
    // Always require at least one lowercase character.
    required.push(pick(&lower, rng));
    let ghost mut upper_at: int = 0;
    let ghost mut digit_at: int = 0;
    let ghost mut symbol_at: int = 0;
    assert(charset_v@ =~= lowercase_set());
    if opts.use_uppercase {
        charset_v.extend_from_slice(upper.as_slice());
        proof {
            upper_at = required@.len() as int;
        }
        required.push(pick(&upper, rng));
    }
    let ghost cs1 = charset_v@;
    if opts.use_digits {
        charset_v.extend_from_slice(digits.as_slice());
        proof {
            digit_at = required@.len() as int;
        }
        required.push(pick(&digits, rng));
    }
    let ghost cs2 = charset_v@;
    if opts.use_symbols {
        charset_v.extend_from_slice(syms.as_slice());
        proof {
            symbol_at = required@.len() as int;
        }
        required.push(pick(&syms, rng));
    }
    assert(cs1 =~= lowercase_set() + (if opts.use_uppercase {
        uppercase_set()
    } else {
        Seq::empty()
    }));
    assert(cs2 =~= cs1 + (if opts.use_digits {
        digit_set()
    } else {
        Seq::empty()
    }));
    assert(charset_v@ =~= charset(*opts));
    assert(lowercase_set().contains(required@[0]));
    assert(opts.use_uppercase ==> 0 <= upper_at < required@.len() && uppercase_set().contains(
        required@[upper_at],
    ));
    assert(opts.use_digits ==> 0 <= digit_at < required@.len() && digit_set().contains(
        required@[digit_at],
    ));
    assert(opts.use_symbols ==> 0 <= symbol_at < required@.len() && symbol_set().contains(
        required@[symbol_at],
    ));

    assert(required@.len() <= 4);
    let mut length = opts.length;
    if length < MIN_GENERATED_PASSWORD_LEN {
        length = MIN_GENERATED_PASSWORD_LEN;
    }
    if length > MAX_GENERATED_PASSWORD_LEN {
        length = MAX_GENERATED_PASSWORD_LEN;
    }
    if length < required.len() {
        length = required.len();
    }
    let fill_len = length - required.len();
    let mut password: Vec<u8> = Vec::new();
    let mut i: usize = 0;
    while i < fill_len
        invariant
            i <= fill_len,
            password@.len() == i,
            charset_v@ == charset(*opts),
            charset_v@.len() > 0,
            forall|k: int| 0 <= k < i ==> charset_v@.contains(#[trigger] password@[k]),
        decreases fill_len - i,
    {
        password.push(pick(&charset_v, rng));
        i = i + 1;
    }
    password.extend_from_slice(required.as_slice());
    let ghost before = password@;
    proof {
        lemma_charset_ascii(*opts);
        assert forall|k: int| 0 <= k < before.len() implies charset(*opts).contains(
            #[trigger] before[k],
        ) by {
            if k < fill_len {
                assert(charset_v@.contains(before[k]));
            } else {
                let t = k - fill_len;
                assert(before[k] == required@[t]);
                if t == 0 {
                    lemma_class_in_charset(*opts, before[k]);
                } else if opts.use_uppercase && t == upper_at {
                    lemma_class_in_charset(*opts, before[k]);
                } else if opts.use_digits && t == digit_at {
                    lemma_class_in_charset(*opts, before[k]);
                } else {
                    lemma_class_in_charset(*opts, before[k]);
                }
            }
        }
        assert(before.contains(required@[0])) by {
            assert(before[fill_len as int] == required@[0]);
        }
        if opts.use_uppercase {
            assert(before[fill_len + upper_at] == required@[upper_at]);
        }
        if opts.use_digits {
            assert(before[fill_len + digit_at] == required@[digit_at]);
        }
        if opts.use_symbols {
            assert(before[fill_len + symbol_at] == required@[symbol_at]);
        }
        assert(before.len() == generated_len(*opts));
    }
    shuffle_bytes(&mut password, rng);
    let ghost p = password@;
    proof {
        lemma_permutation_keeps(before, p, charset(*opts));
        assert(all_ascii_bytes(p)) by {
            assert forall|k: int| 0 <= k < p.len() implies #[trigger] p[k] < 128 by {
                assert(charset(*opts).contains(p[k]));
            }
        }
        lemma_ascii_bytes_decode(p);
    }
    let text = utf8_decode(password).unwrap();
    proof {
        lemma_text_of_bytes(p, text@, charset(*opts));
        lemma_class_survives(before, p, text@, lowercase_set(), required@[0]);
        if opts.use_uppercase {
            lemma_class_survives(before, p, text@, uppercase_set(), required@[upper_at]);
        }
        if opts.use_digits {
            lemma_class_survives(before, p, text@, digit_set(), required@[digit_at]);
        }
        if opts.use_symbols {
            lemma_class_survives(before, p, text@, symbol_set(), required@[symbol_at]);
        }
    }
    text
}

/// A random password for `opts` (see `generate_with`) from a ChaCha20
/// generator seeded by the operating system; `None` only where the operating
/// system's random source cannot seed it.
pub fn generate(opts: &PasswordOptions) -> (r: Option<String>)
    ensures
        r matches Some(p) ==> {
            &&& p@.len() == generated_len(*opts)
            &&& all_chars_of(p@, charset(*opts))
            &&& has_char_of(p@, lowercase_set())
            &&& opts.use_uppercase ==> has_char_of(p@, uppercase_set())
            &&& opts.use_digits ==> has_char_of(p@, digit_set())
            &&& opts.use_symbols ==> has_char_of(p@, symbol_set())
        },
{
    match new_rng() {
        Ok(g) => {
            let mut rng = g;
            Some(generate_with(opts, &mut rng))
        },
        Err(_) => None,
    }
}

} // verus!
