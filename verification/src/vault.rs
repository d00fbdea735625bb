//! The vault: entries, their search, and the encrypted file format
//! `SECPASS2\n<base64 blob>\n` around the serialized vault data.
use vstd::prelude::*;
use vstd::slice::slice_subrange;
use vstd::string::StringExecFns;
use std::path::PathBuf;
use crate::clock::{since_unix_epoch, subsec_nanos, system_now, time_error_duration, whole_seconds};
use crate::crypto::{
    base64_len_fits, blob_bytes, crypto_error_message, decrypt, decryption, default_kdf_params,
    is_base64_char, lemma_decrypt_after_encrypt, parse_blob_text, password_derivable,
    lemma_default_kdf_params_valid, lemma_sealing_succeeds, random_bytes, seal_with, sealed_under,
    sealing, sealing_precheck, sealing_refusal, spec_base64_encode, BlobModel, CryptoError,
    EncryptedBlob, KdfParams,
};
use crate::text::{
    chars_of, contains_chars, contains_seq, find_char, index_of, is_first_index,
    lemma_index_of_is, lemma_trimmed_no_whitespace, lemma_trimmed_with_newline, spec_to_lowercase,
    str_eq, string_from_chars, to_lowercase, trimmed, wipe_string,
};

verus! {

broadcast use vstd::string::group_string_axioms;

/// Master passwords shorter than this many characters are refused.
pub const MIN_MASTER_PASSWORD_CHARS: usize = 14;
/// The current version of the serialized vault data.
pub const VAULT_DATA_VERSION: u32 = 2;
/// Vault files larger than this (96 MiB) are refused before they are read.
pub const MAX_VAULT_FILE_BYTES: u64 = 100_663_296;

/// A point in time: seconds and nanoseconds since the Unix epoch (UTC).
#[derive(Debug, Clone, Copy, PartialEq, Eq, Structural)]
pub struct Timestamp {
    pub secs: i64,
    pub nanos: u32,
}

/// A single vault entry.
#[derive(Clone)]
pub struct Entry {
    pub id: String,
    pub title: String,
    pub username: String,
    pub password: String,
    pub url: String,
    pub notes: String,
    /// Base32 TOTP secret, if set.
    pub totp_secret: Option<String>,
    pub created_at: Timestamp,
    pub updated_at: Timestamp,
}

/// The full vault data: what gets serialized and encrypted.
#[derive(Clone)]
pub struct VaultData {
    pub version: u32,
    pub entries: Vec<Entry>,
}

#[verifier::external_type_specification]
#[verifier::external_body]
pub struct ExPathBuf(PathBuf);

/// The in-memory vault state.
pub struct Vault {
    pub data: VaultData,
    pub path: PathBuf,
    /// Kept for re-encryption on save; never handed out.
    password: String,
    pub is_modified: bool,
}

/// Errors of vault operations.
#[derive(Debug)]
pub enum VaultError {
    Io(String),
    Crypto(String),
    WrongPassword,
    WeakPassword(String),
    InvalidFormat,
    Corrupt(String),
}

/// A vault error with its texts as character sequences.
pub enum VaultFailure {
    Io(Seq<char>),
    Crypto(Seq<char>),
    WrongPassword,
    WeakPassword(Seq<char>),
    InvalidFormat,
    Corrupt(Seq<char>),
}

impl View for VaultError {
    type V = VaultFailure;

    open spec fn view(&self) -> VaultFailure {
        match self {
            VaultError::Io(s) => VaultFailure::Io(s@),
            VaultError::Crypto(s) => VaultFailure::Crypto(s@),
            VaultError::WrongPassword => VaultFailure::WrongPassword,
            VaultError::WeakPassword(s) => VaultFailure::WeakPassword(s@),
            VaultError::InvalidFormat => VaultFailure::InvalidFormat,
            VaultError::Corrupt(s) => VaultFailure::Corrupt(s@),
        }
    }
}

/// The message shown to the user for each error.
pub open spec fn vault_error_message(e: VaultFailure) -> Seq<char> {
    match e {
        VaultFailure::Io(s) => "File error: "@ + s,
        VaultFailure::Crypto(s) => "Crypto error: "@ + s,
        VaultFailure::WrongPassword => "Wrong master password"@,
        VaultFailure::WeakPassword(s) => s,
        VaultFailure::InvalidFormat => "Not a valid SecPass vault file"@,
        VaultFailure::Corrupt(s) => "Vault data is corrupted: "@ + s,
    }
}

impl VaultError {
    /// A message for the user.
    pub fn message(&self) -> (r: String)
        ensures
            r@ == vault_error_message(self@),
    {
        match self {
            VaultError::Io(s) => String::from_str("File error: ").concat(s.as_str()),
            VaultError::Crypto(s) => String::from_str("Crypto error: ").concat(s.as_str()),
            VaultError::WrongPassword => String::from_str("Wrong master password"),
            VaultError::WeakPassword(s) => s.clone(),
            VaultError::InvalidFormat => String::from_str("Not a valid SecPass vault file"),
            VaultError::Corrupt(s) => String::from_str("Vault data is corrupted: ").concat(
                s.as_str(),
            ),
        }
    }
}

/// What a too-short master password is told.
pub open spec fn weak_password_message() -> Seq<char> {
    "Master password must be at least 14 characters. Prefer a 4–6 word passphrase."@
}

/// A master password is accepted when it has at least 14 characters.
pub open spec fn master_password_ok(password: Seq<char>) -> bool {
    password.len() >= MIN_MASTER_PASSWORD_CHARS
}

/// Accepts master passwords of at least 14 characters.
pub fn validate_master_password(password: &str) -> (r: Result<(), VaultError>)
    ensures
        r is Ok <==> master_password_ok(password@),
        r matches Err(e) ==> e@ == VaultFailure::WeakPassword(weak_password_message()),
{
    let count = chars_of(password).len();
    if count < MIN_MASTER_PASSWORD_CHARS {
        return Err(
            VaultError::WeakPassword(
                String::from_str(
                    "Master password must be at least 14 characters. Prefer a 4–6 word passphrase.",
                ),
            ),
        );
    }
    Ok(())
}

/// Refuses vault files over 96 MiB before they are read.
pub fn validate_file_size(len: u64) -> (r: Result<(), VaultError>)
    ensures
        r is Ok <==> len <= MAX_VAULT_FILE_BYTES,
        r matches Err(e) ==> e@ == VaultFailure::InvalidFormat,
{
    if len > MAX_VAULT_FILE_BYTES {
        return Err(VaultError::InvalidFormat);
    }
    Ok(())
}


// ---------------------------------------------------------------------------
// Entries
// ---------------------------------------------------------------------------

/// A well-formed time: a nanosecond part below one second (the seconds are
/// counted from the Unix epoch and are negative before it).
pub open spec fn valid_timestamp(t: Timestamp) -> bool {
    t.nanos < 1_000_000_000
}

/// The current time by the system clock, also where it reads before the
/// Unix epoch; `None` only where the clock reads more seconds from the epoch
/// than an `i64` holds.
fn now_utc() -> (r: Option<Timestamp>)
    ensures
        r matches Some(t) ==> valid_timestamp(t),
{
    match since_unix_epoch(&system_now()) {
        Ok(d) => {
            let secs = whole_seconds(&d);
            if secs > 0x7fff_ffff_ffff_ffff {
                return None;
            }
            Some(Timestamp { secs: secs as i64, nanos: subsec_nanos(&d) })
        },
        Err(e) => {
            let before = time_error_duration(&e);
            let secs = whole_seconds(&before);
            let nanos = subsec_nanos(&before);
            if secs >= 0x7fff_ffff_ffff_ffff {
                return None;
            }
            let s = secs as i64;
            if nanos == 0 {
                Some(Timestamp { secs: -s, nanos: 0 })
            } else {
                Some(Timestamp { secs: -s - 1, nanos: 1_000_000_000 - nanos })
            }
        },
    }
}

/// The lower-case hexadecimal digit for `n` (0 to 15).
pub open spec fn hex_digit(n: int) -> char {
    if n < 10 {
        (48 + n) as char
    } else {
        (87 + n) as char
    }
}

/// `b` in lower-case hexadecimal, two digits per byte, high nibble first.
pub open spec fn hex_text(b: Seq<u8>) -> Seq<char> {
    Seq::new(
        2 * b.len(),
        |i: int|
            hex_digit(
                if i % 2 == 0 {
                    (b[i / 2] / 16) as int
                } else {
                    (b[i / 2] % 16) as int
                },
            ),
    )
}

/// Sixteen random bytes with the version (4) and the RFC 4122 variant bits
/// set: the high nibble of byte 6 becomes 4, the two high bits of byte 8
/// become `10`.
pub open spec fn v4_bytes(random: Seq<u8>) -> Seq<u8> {
    random.update(6, (random[6] % 16 + 0x40) as u8).update(8, (random[8] % 64 + 0x80) as u8)
}

/// The hyphenated, lower-case text of the version-4 UUID made of `random`:
/// `xxxxxxxx-xxxx-4xxx-yxxx-xxxxxxxxxxxx`.
pub open spec fn uuid_v4_text(random: Seq<u8>) -> Seq<char> {
    let b = v4_bytes(random);
    hex_text(b.subrange(0, 4)) + seq!['-'] + hex_text(b.subrange(4, 6)) + seq!['-'] + hex_text(
        b.subrange(6, 8),
    ) + seq!['-'] + hex_text(b.subrange(8, 10)) + seq!['-'] + hex_text(b.subrange(10, 16))
}

/// `s` is the text of a version-4 UUID made of some sixteen random bytes.
pub open spec fn is_v4_uuid_text(s: Seq<char>) -> bool {
    exists|random: Seq<u8>| random.len() == 16 && s == #[trigger] uuid_v4_text(random)
}

/// `Builder::from_random_bytes(random).into_uuid().to_string()`: as uuid's
/// source shows, the builder sets the version and variant bits of the bytes
/// (see `v4_bytes`) and `to_string` writes the hyphenated lower-case form.
#[verifier::external_body]
fn uuid_v4_from_bytes(random: &[u8]) -> (r: String)
    requires
        random@.len() == 16,
    ensures
        r@ == uuid_v4_text(random@),
{
    let mut bytes = [0u8; 16];
    bytes.copy_from_slice(random);
    uuid::Builder::from_random_bytes(bytes).into_uuid().to_string()
}

/// A fresh random version-4 UUID in its hyphenated form; `None` where the
/// operating system's random source fails.
fn new_uuid_string() -> (r: Option<String>)
    ensures
        r matches Some(s) ==> is_v4_uuid_text(s@),
{
    match random_bytes(16) {
        Ok(b) => {
            let s = uuid_v4_from_bytes(b.as_slice());
            assert(b@.len() == 16 && s@ == uuid_v4_text(b@));
            Some(s)
        },
        Err(_) => None,
    }
}

/// The entry matches `query`: the query is empty, or its lower-case form
/// occurs in the lower-case title, username, URL or notes.
pub open spec fn entry_matches(e: Entry, query: Seq<char>) -> bool {
    let q = spec_to_lowercase(query);
    ||| query.len() == 0
    ||| contains_seq(spec_to_lowercase(e.title@), q)
    ||| contains_seq(spec_to_lowercase(e.username@), q)
    ||| contains_seq(spec_to_lowercase(e.url@), q)
    ||| contains_seq(spec_to_lowercase(e.notes@), q)
}

/// Whether `needle` occurs in `haystack`.
pub fn contains_text(haystack: &str, needle: &str) -> (r: bool)
    ensures
        r == contains_seq(haystack@, needle@),
{
    let h = chars_of(haystack);
    let n = chars_of(needle);
    contains_chars(h.as_slice(), n.as_slice())
}

/// `after` is `before` with its secrets wiped: no password, no notes and no
/// TOTP secret; everything else is kept.
pub open spec fn secrets_wiped(before: Entry, after: Entry) -> bool {
    &&& after.password@ == Seq::<char>::empty()
    &&& after.notes@ == Seq::<char>::empty()
    &&& after.totp_secret is None
    &&& after.id == before.id
    &&& after.title == before.title
    &&& after.username == before.username
    &&& after.url == before.url
    &&& after.created_at == before.created_at
    &&& after.updated_at == before.updated_at
}

impl Entry {
    /// A new, empty entry with id `id`, created and updated at `now`.
    pub fn new_at(id: String, now: Timestamp) -> (r: Self)
        ensures
            r.id == id,
            r.title@ == Seq::<char>::empty(),
            r.username@ == Seq::<char>::empty(),
            r.password@ == Seq::<char>::empty(),
            r.url@ == Seq::<char>::empty(),
            r.notes@ == Seq::<char>::empty(),
            r.totp_secret is None,
            r.created_at == now,
            r.updated_at == now,
    {
        Self {
            id,
            title: String::new(),
            username: String::new(),
            password: String::new(),
            url: String::new(),
            notes: String::new(),
            totp_secret: None,
            created_at: now,
            updated_at: now,
        }
    }

    /// A new, empty entry with a fresh random version-4 UUID as its id,
    /// created and updated now (see `new_at`). `None` where the operating
    /// system's random source fails (or the clock reads beyond what an `i64`
    /// of seconds holds).
    pub fn new() -> (r: Option<Self>)
        ensures
            r matches Some(e) ==> {
                &&& is_v4_uuid_text(e.id@)
                &&& e.title@ == Seq::<char>::empty()
                &&& e.username@ == Seq::<char>::empty()
                &&& e.password@ == Seq::<char>::empty()
                &&& e.url@ == Seq::<char>::empty()
                &&& e.notes@ == Seq::<char>::empty()
                &&& e.totp_secret is None
                &&& e.created_at == e.updated_at
                &&& valid_timestamp(e.created_at)
            },
    {
        let id = match new_uuid_string() {
            Some(id) => id,
            None => return None,
        };
        let now = match now_utc() {
            Some(t) => t,
            None => return None,
        };
        Some(Self::new_at(id, now))
    }

    /// Sets the update time to `now`; nothing else changes.
    pub fn touch_at(&mut self, now: Timestamp)
        ensures
            final(self).updated_at == now,
            final(self).id == old(self).id,
            final(self).title == old(self).title,
            final(self).username == old(self).username,
            final(self).password == old(self).password,
            final(self).url == old(self).url,
            final(self).notes == old(self).notes,
            final(self).totp_secret == old(self).totp_secret,
            final(self).created_at == old(self).created_at,
    {
        self.updated_at = now;
    }

    /// Sets the update time to now (see `touch_at`); nothing else changes. A
    /// clock that reads beyond what an `i64` of seconds holds leaves the
    /// update time as it was.
    pub fn touch(&mut self)
        ensures
            final(self).updated_at == old(self).updated_at || valid_timestamp(final(self).updated_at),
            final(self).id == old(self).id,
            final(self).title == old(self).title,
            final(self).username == old(self).username,
            final(self).password == old(self).password,
            final(self).url == old(self).url,
            final(self).notes == old(self).notes,
            final(self).totp_secret == old(self).totp_secret,
            final(self).created_at == old(self).created_at,
    {
        match now_utc() {
            Some(t) => self.touch_at(t),
            None => {},
        }
    }

    /// Wipes the entry's secrets: the password and notes are overwritten with
    /// zeros and cleared, and the TOTP secret is overwritten and removed.
    pub fn wipe_secrets(&mut self)
        ensures
            secrets_wiped(*old(self), *final(self)),
    {
        wipe_string(&mut self.password);
        wipe_string(&mut self.notes);
        let mut secret: Option<String> = None;
        std::mem::swap(&mut secret, &mut self.totp_secret);
        match secret {
            Some(s) => {
                let mut s = s;
                wipe_string(&mut s);
            },
            None => {},
        }
    }

    /// Whether the entry matches a search query (case-insensitive; see
    /// `entry_matches`).
    pub fn matches(&self, query: &str) -> (r: bool)
        ensures
            r == entry_matches(*self, query@),
    {
        if query.is_empty() {
            return true;
        }
        let q = to_lowercase(query);
        let title = to_lowercase(self.title.as_str());
        if contains_text(title.as_str(), q.as_str()) {
            return true;
        }
        let username = to_lowercase(self.username.as_str());
        if contains_text(username.as_str(), q.as_str()) {
            return true;
        }
        let url = to_lowercase(self.url.as_str());
        if contains_text(url.as_str(), q.as_str()) {
            return true;
        }
        let notes = to_lowercase(self.notes.as_str());
        contains_text(notes.as_str(), q.as_str())
    }
}

impl VaultData {
    /// Empty data of the current version.
    pub fn new() -> (r: Self)
        ensures
            r.version == VAULT_DATA_VERSION,
            r.entries@ == Seq::<Entry>::empty(),
    {
        Self { version: VAULT_DATA_VERSION, entries: Vec::new() }
    }
}

impl Default for VaultData {
    /// Version 0 and no entries.
    fn default() -> (r: Self)
        ensures
            r.version == 0,
            r.entries@ == Seq::<Entry>::empty(),
    {
        Self { version: 0, entries: Vec::new() }
    }
}


// ---------------------------------------------------------------------------
// Entry operations
// ---------------------------------------------------------------------------

/// `i` is the position of the first entry with id `id`.
pub open spec fn is_first_with_id(s: Seq<Entry>, id: Seq<char>, i: int) -> bool {
    &&& 0 <= i < s.len()
    &&& s[i].id@ == id
    &&& forall|j: int| 0 <= j < i ==> s[j].id@ != id
}

/// The position of the first entry with id `id`, or -1.
pub open spec fn index_of_id(s: Seq<Entry>, id: Seq<char>) -> int {
    if exists|i: int| is_first_with_id(s, id, i) {
        choose|i: int| is_first_with_id(s, id, i)
    } else {
        -1
    }
}

/// The entries of `s` whose id is not `id`, in their order.
pub open spec fn without_id(s: Seq<Entry>, id: Seq<char>) -> Seq<Entry>
    decreases s.len(),
{
    if s.len() == 0 {
        Seq::empty()
    } else if s.last().id@ == id {
        without_id(s.drop_last(), id)
    } else {
        without_id(s.drop_last(), id).push(s.last())
    }
}

/// The entries of `s` that match `query`, in their order.
pub open spec fn matching(s: Seq<Entry>, query: Seq<char>) -> Seq<Entry>
    decreases s.len(),
{
    if s.len() == 0 {
        Seq::empty()
    } else if entry_matches(s.last(), query) {
        matching(s.drop_last(), query).push(s.last())
    } else {
        matching(s.drop_last(), query)
    }
}

/// The magic line of the current file format.
pub open spec fn file_magic_v2() -> Seq<char> {
    "SECPASS2"@
}

/// The magic line of the first file format, still read.
pub open spec fn file_magic_v1() -> Seq<char> {
    "SECPASS1"@
}

/// The error that opening a vault gives for a decryption error.
pub open spec fn crypto_failure(e: CryptoError) -> VaultFailure {
    match e {
        CryptoError::DecryptionFailed => VaultFailure::WrongPassword,
        CryptoError::InvalidFormat => VaultFailure::InvalidFormat,
        _ => VaultFailure::Crypto(crypto_error_message(e)),
    }
}

/// Reading a vault file: the text up to the first newline, trimmed, is one
/// of the magic lines; the rest, trimmed, is the Base64 text of a blob; the
/// blob is decrypted with `password`.
pub open spec fn unsealed(raw: Seq<char>, password: Seq<char>) -> Result<Seq<u8>, VaultFailure> {
    let nl = index_of(raw, '\n');
    if nl < 0 {
        Err(VaultFailure::InvalidFormat)
    } else {
        let magic = trimmed(raw.take(nl));
        if magic != file_magic_v2() && magic != file_magic_v1() {
            Err(VaultFailure::InvalidFormat)
        } else {
            match parse_blob_text(trimmed(raw.skip(nl + 1))) {
                None => Err(VaultFailure::InvalidFormat),
                Some(m) => match decryption(m, password) {
                    Ok(p) => Ok(p),
                    Err(e) => Err(crypto_failure(e)),
                },
            }
        }
    }
}

/// The contents of a vault file around the Base64 text of its blob.
pub open spec fn sealed_file_text(b64: Seq<char>) -> Seq<char> {
    "SECPASS2\n"@ + b64 + "\n"@
}

/// The contents of a vault file for `plaintext` sealed under `password` with
/// the default KDF parameters, `salt` and `nonce`, or the error of sealing.
pub open spec fn sealed_file(plaintext: Seq<u8>, password: Seq<char>, salt: Seq<u8>, nonce: Seq<u8>) -> Result<
    Seq<char>,
    VaultFailure,
> {
    match sealing(plaintext, password, default_kdf_params(), salt, nonce) {
        Ok(m) => Ok(sealed_file_text(spec_base64_encode(blob_bytes(m)))),
        Err(e) => Err(VaultFailure::Crypto(crypto_error_message(e))),
    }
}

/// `r` holds the text or the error that `s` describes.
pub open spec fn same_file_result(r: Result<String, VaultError>, s: Result<Seq<char>, VaultFailure>) -> bool {
    match (r, s) {
        (Ok(c), Ok(t)) => c@ == t,
        (Err(e), Err(f)) => e@ == f,
        _ => false,
    }
}

/// `r` holds the bytes or the error that `s` describes.
pub open spec fn same_unsealed(r: Result<Vec<u8>, VaultError>, s: Result<Seq<u8>, VaultFailure>) -> bool {
    match (r, s) {
        (Ok(v), Ok(p)) => v@ == p,
        (Err(e), Err(f)) => e@ == f,
        _ => false,
    }
}

/// Reading a vault file back gives the data that was sealed into it.
proof fn lemma_sealed_file_roundtrip(m: BlobModel, b64: Seq<char>, plaintext: Seq<u8>, password: Seq<char>)
    requires
        sealed_under(m, plaintext, password, default_kdf_params()),
        b64 == spec_base64_encode(blob_bytes(m)),
        b64.len() > 0,
        forall|i: int| 0 <= i < b64.len() ==> is_base64_char(#[trigger] b64[i]),
        blob_bytes(m).len() <= 67_108_864 ==> parse_blob_text(b64) == Some(m),
    ensures
        plaintext.len() + 77 <= 67_108_864 ==> unsealed(sealed_file_text(b64), password) == Ok::<
            Seq<u8>,
            VaultFailure,
        >(plaintext),
{
    if plaintext.len() + 77 <= 67_108_864 {
        reveal_strlit("SECPASS2\n");
        reveal_strlit("SECPASS2");
        reveal_strlit("\n");
        let raw = sealed_file_text(b64);
        assert(blob_bytes(m).len() == plaintext.len() + 77);
        assert(raw[8] == '\n');
        assert(is_first_index(raw, '\n', 8));
        lemma_index_of_is(raw, '\n', 8);
        assert(raw.take(8) =~= file_magic_v2());
        assert(trimmed(raw.take(8)) == raw.take(8)) by {
            lemma_trimmed_no_whitespace(raw.take(8));
        }
        assert(raw.skip(9) =~= b64 + seq!['\n']);
        assert(is_base64_char(b64[0]));
        assert(is_base64_char(b64.last()));
        lemma_trimmed_with_newline(b64);
        lemma_decrypt_after_encrypt(m, plaintext, password, default_kdf_params());
    }
}

/// After deleting an id, no entry has that id.
pub proof fn lemma_without_id_removes(s: Seq<Entry>, id: Seq<char>)
    ensures
        forall|i: int| 0 <= i < without_id(s, id).len() ==> (#[trigger] without_id(s, id)[i]).id@ != id,
    decreases s.len(),
{
    if s.len() > 0 {
        lemma_without_id_removes(s.drop_last(), id);
    }
}

/// Deleting keeps every entry with another id, in order: the entries kept
/// are exactly those of `s` whose id differs, counted with multiplicity.
pub proof fn lemma_without_id_keeps_others(s: Seq<Entry>, id: Seq<char>)
    ensures
        without_id(s, id) == s.filter(|e: Entry| e.id@ != id),
    decreases s.len(),
{
    reveal_with_fuel(Seq::<_>::filter, 1);
    if s.len() > 0 {
        lemma_without_id_keeps_others(s.drop_last(), id);
    }
}

/// Deleting the same id twice is deleting it once.
pub proof fn lemma_without_id_idempotent(s: Seq<Entry>, id: Seq<char>)
    ensures
        without_id(without_id(s, id), id) == without_id(s, id),
{
    lemma_without_id_removes(s, id);
    lemma_without_id_nothing_to_remove(without_id(s, id), id);
}

proof fn lemma_without_id_nothing_to_remove(s: Seq<Entry>, id: Seq<char>)
    requires
        forall|i: int| 0 <= i < s.len() ==> (#[trigger] s[i]).id@ != id,
    ensures
        without_id(s, id) == s,
    decreases s.len(),
{
    if s.len() > 0 {
        let init = s.drop_last();
        assert forall|i: int| 0 <= i < init.len() implies (#[trigger] init[i]).id@ != id by {
            assert(init[i] == s[i]);
        }
        lemma_without_id_nothing_to_remove(init, id);
        assert(s.last().id@ != id);
        assert(init.push(s.last()) =~= s);
    }
}

/// The empty query matches every entry: searching for it lists the vault.
pub proof fn lemma_empty_query_matches_all(s: Seq<Entry>)
    ensures
        matching(s, Seq::<char>::empty()) == s,
    decreases s.len(),
{
    if s.len() > 0 {
        lemma_empty_query_matches_all(s.drop_last());
        assert(s.drop_last().push(s.last()) =~= s);
    }
}

/// Every entry that search lists matches the query.
pub proof fn lemma_matching_only_matches(s: Seq<Entry>, query: Seq<char>)
    ensures
        forall|i: int| 0 <= i < matching(s, query).len() ==> entry_matches(
            #[trigger] matching(s, query)[i],
            query,
        ),
    decreases s.len(),
{
    if s.len() > 0 {
        let init = s.drop_last();
        lemma_matching_only_matches(init, query);
        let m = matching(s, query);
        assert forall|i: int| 0 <= i < m.len() implies entry_matches(#[trigger] m[i], query) by {
            if i < matching(init, query).len() {
                assert(m[i] == matching(init, query)[i]);
            }
        }
    }
}

/// Search misses no matching entry: search keeps exactly the matching
/// entries of the vault, in order.
pub proof fn lemma_matching_is_filter(s: Seq<Entry>, query: Seq<char>)
    ensures
        matching(s, query) == s.filter(|e: Entry| entry_matches(e, query)),
    decreases s.len(),
{
    reveal_with_fuel(Seq::<_>::filter, 1);
    if s.len() > 0 {
        lemma_matching_is_filter(s.drop_last(), query);
    }
}

/// What a vault holds; its master password can be spoken of in contracts but
/// is never handed out. The view of `Vault` is closed because the password
/// field is private: an open view would have to read it outside this module.
pub struct VaultState {
    pub data: VaultData,
    pub path: PathBuf,
    pub password: Seq<char>,
    pub is_modified: bool,
}

impl View for Vault {
    type V = VaultState;

    closed spec fn view(&self) -> VaultState {
        VaultState {
            data: self.data,
            path: self.path,
            password: self.password@,
            is_modified: self.is_modified,
        }
    }
}

impl Vault {
    pub fn add_entry(&mut self, entry: Entry)
        ensures
            final(self)@.data.entries@ == old(self)@.data.entries@.push(entry),
            final(self)@.is_modified,
            final(self)@.data.version == old(self)@.data.version,
            final(self)@.path == old(self)@.path,
            final(self)@.password == old(self)@.password,
    {
        self.data.entries.push(entry);
        self.is_modified = true;
    }

    /// Replaces the first entry with the same id, whose secrets are wiped;
    /// without one, nothing changes.
    pub fn update_entry(&mut self, entry: Entry)
        ensures
            ({
                let i = index_of_id(old(self)@.data.entries@, entry.id@);
                if i >= 0 {
                    &&& final(self)@.data.entries@ == old(self)@.data.entries@.update(i, entry)
                    &&& final(self)@.is_modified
                } else {
                    &&& final(self)@.data.entries@ == old(self)@.data.entries@
                    &&& final(self)@.is_modified == old(self)@.is_modified
                }
            }),
            final(self)@.data.version == old(self)@.data.version,
            final(self)@.path == old(self)@.path,
            final(self)@.password == old(self)@.password,
    {
        let n = self.data.entries.len();
        let mut i: usize = 0;
        while i < n
            invariant
                *self == *old(self),
                n == self.data.entries@.len(),
                i <= n,
                forall|j: int| 0 <= j < i ==> self.data.entries@[j].id@ != entry.id@,
            decreases n - i,
        {
            if self.data.entries[i].id == entry.id {
                assert(is_first_with_id(self.data.entries@, entry.id@, i as int));
                let ghost k = choose|k: int| is_first_with_id(self.data.entries@, entry.id@, k);
                assert(k == i) by {
                    if k > i {
                        assert(self.data.entries@[i as int].id@ == entry.id@);
                    }
                }
                let ghost before = self.data.entries@;
                let mut replaced = self.data.entries.remove(i);
                replaced.wipe_secrets();
                self.data.entries.insert(i, entry);
                assert(self.data.entries@ =~= before.update(i as int, entry));
                self.is_modified = true;
                return;
            }
            i = i + 1;
        }
        assert(!exists|k: int| is_first_with_id(self.data.entries@, entry.id@, k));
    }

    /// Removes every entry with id `id`; the secrets of the removed entries
    /// are wiped.
    pub fn delete_entry(&mut self, id: &str)
        ensures
            final(self)@.data.entries@ == without_id(old(self)@.data.entries@, id@),
            final(self)@.is_modified,
            final(self)@.data.version == old(self)@.data.version,
            final(self)@.path == old(self)@.path,
            final(self)@.password == old(self)@.password,
    {
        let mut old_entries: Vec<Entry> = Vec::new();
        std::mem::swap(&mut old_entries, &mut self.data.entries);
        let ghost all = old_entries@;
        let mut kept: Vec<Entry> = Vec::new();
        for e in it: old_entries.into_iter()
            invariant
                it.seq() == all,
                kept@ == without_id(all.take(it.index()), id@),
        {
            assert(all.take(it.index() + 1).drop_last() =~= all.take(it.index()));
            if !str_eq(e.id.as_str(), id) {
                kept.push(e);
            } else {
                let mut gone = e;
                gone.wipe_secrets();
            }
        }
        assert(all.take(all.len() as int) =~= all);
        self.data.entries = kept;
        self.is_modified = true;
    }

    /// The entries that match `query`, in vault order.
    pub fn search(&self, query: &str) -> (r: Vec<&Entry>)
        ensures
            r@.len() == matching(self@.data.entries@, query@).len(),
            forall|i: int| 0 <= i < r@.len() ==> *r@[i] == matching(self@.data.entries@, query@)[i],
    {
        let n = self.data.entries.len();
        let mut out: Vec<&Entry> = Vec::new();
        let mut i: usize = 0;
        while i < n
            invariant
                n == self.data.entries@.len(),
                i <= n,
                out@.len() == matching(self.data.entries@.take(i as int), query@).len(),
                forall|k: int|
                    0 <= k < out@.len() ==> *out@[k] == matching(
                        self.data.entries@.take(i as int),
                        query@,
                    )[k],
            decreases n - i,
        {
            let e = &self.data.entries[i];
            assert(self.data.entries@.take(i + 1).drop_last() =~= self.data.entries@.take(i as int));
            if e.matches(query) {
                out.push(e);
            }
            i = i + 1;
        }
        assert(self.data.entries@.take(n as int) =~= self.data.entries@);
        out
    }

    /// A new, empty, unsaved vault at `path` under `password`, which must have
    /// at least 14 characters.
    pub fn new(path: PathBuf, password: String) -> (r: Result<Self, VaultError>)
        ensures
            r is Ok <==> master_password_ok(password@),
            r matches Err(e) ==> e@ == VaultFailure::WeakPassword(weak_password_message()),
            r matches Ok(v) ==> {
                &&& v@.data.version == VAULT_DATA_VERSION
                &&& v@.data.entries@ == Seq::<Entry>::empty()
                &&& v@.path == path
                &&& v@.password == password@
                &&& !v@.is_modified
            },
    {
        validate_master_password(password.as_str())?;
        Ok(Self {
            data: VaultData::new(),
            path,
            password,
            is_modified: false,
        })
    }

    /// The vault for data read from `path` with `password`; older data is
    /// upgraded to the current version in memory.
    pub fn unlocked(path: PathBuf, password: String, data: VaultData) -> (r: Self)
        ensures
            r@.data.version == (if data.version < VAULT_DATA_VERSION {
                VAULT_DATA_VERSION
            } else {
                data.version
            }),
            r@.data.entries@ == data.entries@,
            r@.path == path,
            r@.password == password@,
            !r@.is_modified,
    {
        let mut data = data;
        if data.version == 0 {
            data.version = 1;
        }
        if data.version < VAULT_DATA_VERSION {
            data.version = VAULT_DATA_VERSION;
        }
        Self { data, path, password, is_modified: false }
    }

    /// Reads the contents of a vault file: the magic line, then the blob,
    /// decrypted with `password` (see `unsealed`).
    pub fn unseal(raw: &str, password: &str) -> (r: Result<Vec<u8>, VaultError>)
        ensures
            same_unsealed(r, unsealed(raw@, password@)),
    {
        let cs = chars_of(raw);
        let n = cs.len();
        let nl = match find_char(cs.as_slice(), '\n') {
            Some(i) => i,
            None => return Err(VaultError::InvalidFormat),
        };
        let head = slice_subrange(cs.as_slice(), 0, nl);
        assert(head@ =~= raw@.take(nl as int));
        let magic_line = string_from_chars(head);
        let magic = magic_line.as_str().trim();
        if !str_eq(magic, "SECPASS2") && !str_eq(magic, "SECPASS1") {
            return Err(VaultError::InvalidFormat);
        }
        let tail = slice_subrange(cs.as_slice(), nl + 1, n);
        assert(tail@ =~= raw@.skip(nl + 1));
        let rest = string_from_chars(tail);
        let blob = match EncryptedBlob::from_base64(rest.as_str().trim()) {
            Ok(b) => b,
            Err(_) => return Err(VaultError::InvalidFormat),
        };
        match decrypt(&blob, password) {
            Ok(p) => Ok(p),
            Err(e) => Err(
                match e {
                    CryptoError::DecryptionFailed => VaultError::WrongPassword,
                    CryptoError::InvalidFormat => VaultError::InvalidFormat,
                    _ => VaultError::Crypto(e.message()),
                },
            ),
        }
    }

    /// Sets the data to the current version before it is serialized.
    pub fn prepare_save(&mut self)
        ensures
            final(self)@.data.version == VAULT_DATA_VERSION,
            final(self)@.data.entries@ == old(self)@.data.entries@,
            final(self)@.path == old(self)@.path,
            final(self)@.password == old(self)@.password,
            final(self)@.is_modified == old(self)@.is_modified,
    {
        self.data.version = VAULT_DATA_VERSION;
    }

    /// The contents of the vault file for the serialized data `plaintext`,
    /// sealed under the vault's password with the default KDF parameters and
    /// the given salt and nonce (see `sealed_file`). Reading the contents
    /// back with the same password gives the data.
    pub fn sealed_content_with(&self, plaintext: &[u8], salt: &[u8], nonce: &[u8]) -> (r: Result<
        String,
        VaultError,
    >)
        requires
            base64_len_fits(plaintext@.len() as int + 77),
        ensures
            same_file_result(r, sealed_file(plaintext@, self@.password, salt@, nonce@)),
            r matches Ok(c) ==> exists|m: BlobModel|
                #![trigger blob_bytes(m)]
                sealed_under(m, plaintext@, self@.password, default_kdf_params()) && c@
                    == sealed_file_text(spec_base64_encode(blob_bytes(m))),
            r matches Ok(c) ==> (plaintext@.len() + 77 <= 67_108_864 ==> unsealed(c@, self@.password)
                == Ok::<Seq<u8>, VaultFailure>(plaintext@)),
    {
        let blob = match seal_with(
            plaintext,
            self.password.as_str(),
            KdfParams::interactive_default(),
            salt,
            nonce,
        ) {
            Ok(b) => b,
            Err(e) => return Err(VaultError::Crypto(e.message())),
        };
        let text = blob.to_base64();
        let mut content = String::from_str("SECPASS2\n");
        content.append(text.as_str());
        content.append("\n");
        proof {
            lemma_sealed_file_roundtrip(blob@, text@, plaintext@, self@.password);
        }
        Ok(content)
    }

    /// The contents of the vault file for the serialized data `plaintext`:
    /// `SECPASS2`, a newline, the Base64 text of the data encrypted under the
    /// vault's password with the default KDF parameters and a fresh random
    /// salt and nonce, and a newline (see `sealed_content_with`). Reading the
    /// contents back with the same password gives the data. It succeeds on
    /// every input that `sealing_refusal` does not refuse, unless the
    /// operating system's random source fails.
    pub fn sealed_content(&self, plaintext: &[u8]) -> (r: Result<String, VaultError>)
        requires
            base64_len_fits(plaintext@.len() as int + 77),
        ensures
            match sealing_refusal(plaintext@, self@.password, default_kdf_params()) {
                Some(e) => r matches Err(x) && x@ == VaultFailure::Crypto(crypto_error_message(e)),
                None => r is Ok || (r matches Err(x) && x@ == VaultFailure::Crypto(
                    crypto_error_message(CryptoError::RandomSourceFailed),
                )),
            },
            !password_derivable(self@.password) ==> (r matches Err(e) && e@ == VaultFailure::Crypto(
                crypto_error_message(CryptoError::KeyDerivationFailed),
            )),
            password_derivable(self@.password) && plaintext@.len() > 0x10_0000_0000 ==> (r matches Err(
                e,
            ) && e@ == VaultFailure::Crypto(crypto_error_message(CryptoError::EncryptionFailed))),
            r matches Ok(c) ==> exists|salt: Seq<u8>, nonce: Seq<u8>|
                #![trigger sealed_file(plaintext@, self@.password, salt, nonce)]
                sealed_file(plaintext@, self@.password, salt, nonce) == Ok::<
                    Seq<char>,
                    VaultFailure,
                >(c@),
            r matches Ok(c) ==> exists|m: BlobModel|
                #![trigger blob_bytes(m)]
                sealed_under(m, plaintext@, self@.password, default_kdf_params()) && c@
                    == sealed_file_text(spec_base64_encode(blob_bytes(m))),
            r matches Ok(c) ==> (plaintext@.len() + 77 <= 67_108_864 ==> unsealed(c@, self@.password)
                == Ok::<Seq<u8>, VaultFailure>(plaintext@)),
    {
        proof {
            lemma_default_kdf_params_valid();
        }
        match sealing_precheck(plaintext, self.password.as_str(), KdfParams::interactive_default()) {
            Ok(()) => {},
            Err(e) => return Err(VaultError::Crypto(e.message())),
        }
        let salt = match random_bytes(32) {
            Ok(s) => s,
            Err(_) => return Err(VaultError::Crypto(CryptoError::RandomSourceFailed.message())),
        };
        let nonce = match random_bytes(12) {
            Ok(n) => n,
            Err(_) => return Err(VaultError::Crypto(CryptoError::RandomSourceFailed.message())),
        };
        proof {
            lemma_sealing_succeeds(plaintext@, self@.password, default_kdf_params(), salt@, nonce@);
        }
        let r = self.sealed_content_with(plaintext, salt.as_slice(), nonce.as_slice());
        proof {
            if r is Ok {
                let c = r->Ok_0;
                assert(sealed_file(plaintext@, self@.password, salt@, nonce@) == Ok::<
                    Seq<char>,
                    VaultFailure,
                >(c@));
            }
        }
        r
    }

    /// Marks the vault as saved.
    pub fn mark_saved(&mut self)
        ensures
            !final(self)@.is_modified,
            final(self)@.data == old(self)@.data,
            final(self)@.path == old(self)@.path,
            final(self)@.password == old(self)@.password,
    {
        self.is_modified = false;
    }

    /// Changes the master password, which must have at least 14 characters;
    /// the old one is wiped. On refusal nothing changes.
    pub fn set_password(&mut self, new_password: String) -> (r: Result<(), VaultError>)
        ensures
            r is Ok <==> master_password_ok(new_password@),
            r matches Err(e) ==> e@ == VaultFailure::WeakPassword(weak_password_message()),
            r is Ok ==> final(self)@.password == new_password@,
            r is Err ==> final(self)@.password == old(self)@.password,
            final(self)@.data == old(self)@.data,
            final(self)@.path == old(self)@.path,
            final(self)@.is_modified == old(self)@.is_modified,
    {
        validate_master_password(new_password.as_str())?;
        wipe_string(&mut self.password);
        self.password = new_password;
        Ok(())
    }

    /// Wipes the master password and the secrets of every entry, before the
    /// vault is dropped: what is left holds no secret.
    pub fn lock(&mut self)
        ensures
            final(self)@.password == Seq::<char>::empty(),
            final(self)@.data.entries@.len() == old(self)@.data.entries@.len(),
            forall|i: int|
                0 <= i < final(self)@.data.entries@.len() ==> secrets_wiped(
                    #[trigger] old(self)@.data.entries@[i],
                    final(self)@.data.entries@[i],
                ),
            final(self)@.data.version == old(self)@.data.version,
            final(self)@.path == old(self)@.path,
            final(self)@.is_modified == old(self)@.is_modified,
    {
        wipe_string(&mut self.password);
        let mut old_entries: Vec<Entry> = Vec::new();
        std::mem::swap(&mut old_entries, &mut self.data.entries);
        let ghost all = old_entries@;
        let mut wiped: Vec<Entry> = Vec::new();
        for e in it: old_entries.into_iter()
            invariant
                it.seq() == all,
                wiped@.len() == it.index(),
                forall|k: int| 0 <= k < it.index() ==> secrets_wiped(#[trigger] all[k], wiped@[k]),
        {
            let mut w = e;
            w.wipe_secrets();
            wiped.push(w);
        }
        self.data.entries = wiped;
    }

    pub fn vault_path(&self) -> (r: &PathBuf)
        ensures
            *r == self@.path,
    {
        &self.path
    }
}

} // verus!
