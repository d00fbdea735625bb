//! AES-256-GCM encryption under an Argon2id-derived key, and the versioned,
//! self-describing binary format of an encrypted blob.
use vstd::prelude::*;
use vstd::slice::{slice_subrange, slice_to_vec};
use vstd::utf8::*;
use vstd::string::{StringExecFns, StringSliceAdditionalSpecFns};
use aes_gcm::aead::rand_core::RngCore;
use aes_gcm::aead::{Aead, KeyInit, OsRng};
use zeroize::Zeroize;
use aes_gcm::{Aes256Gcm, Key, Nonce};
use base64::engine::general_purpose::STANDARD as BASE64;
use base64::Engine;
use crate::text::{trimmed, is_unicode_whitespace, lemma_trimmed_no_whitespace};

verus! {

/// Default Argon2id memory cost in KiB (64 MiB).
pub const DEFAULT_ARGON2_M_COST: u32 = 65_536;
/// Default Argon2id iteration count.
pub const DEFAULT_ARGON2_T_COST: u32 = 3;
/// Default Argon2id parallelism.
pub const DEFAULT_ARGON2_P_COST: u32 = 4;

/// Argon2id parameters, stored in every blob so that later changes of the
/// defaults do not make old vaults unreadable.
#[derive(Debug, Clone, Copy, PartialEq, Eq, Structural)]
pub struct KdfParams {
    pub m_cost: u32,
    pub t_cost: u32,
    pub p_cost: u32,
}

/// The parameter sets that are accepted: broad enough for forward
/// compatibility, narrow enough to refuse denial-of-service parameters.
pub open spec fn kdf_params_valid(k: KdfParams) -> bool {
    &&& 19_456 <= k.m_cost <= 1_048_576
    &&& 1 <= k.t_cost <= 20
    &&& 1 <= k.p_cost <= 16
}

pub open spec fn default_kdf_params() -> KdfParams {
    KdfParams {
        m_cost: DEFAULT_ARGON2_M_COST,
        t_cost: DEFAULT_ARGON2_T_COST,
        p_cost: DEFAULT_ARGON2_P_COST,
    }
}

/// Errors of encryption, decryption and blob parsing.
#[derive(Debug)]
pub enum CryptoError {
    /// The cipher refused to encrypt (a plaintext over 2^36 bytes).
    EncryptionFailed,
    /// Wrong password or corrupted data.
    DecryptionFailed,
    InvalidFormat,
    KeyDerivationFailed,
    /// The operating system's random source could not give the salt or
    /// nonce.
    RandomSourceFailed,
}

/// The message shown to the user for each error.
pub open spec fn crypto_error_message(e: CryptoError) -> Seq<char> {
    match e {
        CryptoError::EncryptionFailed => "Encryption failed"@,
        CryptoError::DecryptionFailed => "Wrong password or corrupted vault"@,
        CryptoError::InvalidFormat => "Invalid vault format"@,
        CryptoError::KeyDerivationFailed => "Key derivation failed"@,
        CryptoError::RandomSourceFailed => "Random source unavailable"@,
    }
}

impl CryptoError {
    /// A message for the user.
    pub fn message(&self) -> (r: String)
        ensures
            r@ == crypto_error_message(*self),
    {
        match self {
            CryptoError::EncryptionFailed => String::from_str("Encryption failed"),
            CryptoError::DecryptionFailed => String::from_str("Wrong password or corrupted vault"),
            CryptoError::InvalidFormat => String::from_str("Invalid vault format"),
            CryptoError::KeyDerivationFailed => String::from_str("Key derivation failed"),
            CryptoError::RandomSourceFailed => String::from_str("Random source unavailable"),
        }
    }
}

/// The default parameters are accepted, so new vaults can always be read.
pub proof fn lemma_default_kdf_params_valid()
    ensures
        kdf_params_valid(default_kdf_params()),
{
}

impl KdfParams {
    /// The parameters used for new vaults.
    pub fn interactive_default() -> (r: Self)
        ensures
            r == default_kdf_params(),
    {
        KdfParams {
            m_cost: DEFAULT_ARGON2_M_COST,
            t_cost: DEFAULT_ARGON2_T_COST,
            p_cost: DEFAULT_ARGON2_P_COST,
        }
    }

    fn validate(self) -> (r: Result<(), CryptoError>)
        ensures
            r is Ok <==> kdf_params_valid(self),
            r is Err ==> r == Err::<(), CryptoError>(CryptoError::InvalidFormat),
    {
        if self.m_cost < 19_456 || self.m_cost > 1_048_576 {
            return Err(CryptoError::InvalidFormat);
        }
        if self.t_cost == 0 || self.t_cost > 20 {
            return Err(CryptoError::InvalidFormat);
        }
        if self.p_cost == 0 || self.p_cost > 16 {
            return Err(CryptoError::InvalidFormat);
        }
        Ok(())
    }
}

impl Default for KdfParams {
    fn default() -> (r: Self)
        ensures
            r == default_kdf_params(),
    {
        Self::interactive_default()
    }
}


const BLOB_VERSION: u8 = 2;
const KEY_LEN: usize = 32;
const SALT_LEN: usize = 32;
const NONCE_LEN: usize = 12;
const GCM_TAG_LEN: usize = 16;
/// Length of magic, version and the three KDF parameters.
const V2_HEADER_LEN: usize = 17;
/// Defensive cap on the decoded size of a blob (64 MiB).
const MAX_DECODED_BLOB_BYTES: usize = 67_108_864;
/// Base64 length of a blob of `MAX_DECODED_BLOB_BYTES` bytes.
const MAX_BASE64_CHARS: usize = 89_478_488;

/// The four bytes "SPB2" that open a blob in the current format.
pub open spec fn blob_magic() -> Seq<u8> {
    seq![0x53u8, 0x50u8, 0x42u8, 0x32u8]
}

/// Big-endian encoding of a `u32`.
pub open spec fn be_u32_bytes(x: u32) -> Seq<u8> {
    seq![
        (x / 0x100_0000) as u8,
        ((x / 0x1_0000) % 0x100) as u8,
        ((x / 0x100) % 0x100) as u8,
        (x % 0x100) as u8,
    ]
}

/// The `u32` whose big-endian encoding is the four bytes `b`.
pub open spec fn be_u32_value(b: Seq<u8>) -> u32 {
    (b[0] * 0x100_0000 + b[1] * 0x1_0000 + b[2] * 0x100 + b[3]) as u32
}

/// What an encrypted blob holds.
pub struct BlobModel {
    pub kdf: KdfParams,
    pub salt: Seq<u8>,
    pub nonce: Seq<u8>,
    pub ciphertext: Seq<u8>,
}

/// A blob that decryption accepts: valid KDF parameters, a 32-byte salt, a
/// 12-byte nonce and a ciphertext that holds at least the 16-byte GCM tag.
pub open spec fn blob_model_valid(m: BlobModel) -> bool {
    &&& kdf_params_valid(m.kdf)
    &&& m.salt.len() == 32
    &&& m.nonce.len() == 12
    &&& m.ciphertext.len() >= 16
}

/// The current binary format:
/// `SPB2 || version || m_cost || t_cost || p_cost || salt || nonce || ciphertext`,
/// integers in big-endian order.
pub open spec fn blob_bytes(m: BlobModel) -> Seq<u8> {
    blob_magic() + seq![2u8] + be_u32_bytes(m.kdf.m_cost) + be_u32_bytes(m.kdf.t_cost)
        + be_u32_bytes(m.kdf.p_cost) + m.salt + m.nonce + m.ciphertext
}

pub open spec fn checked_model(m: BlobModel) -> Option<BlobModel> {
    if blob_model_valid(m) {
        Some(m)
    } else {
        None
    }
}

/// Reading the current format; `buf` starts with the magic.
pub open spec fn parse_blob_v2(buf: Seq<u8>) -> Option<BlobModel> {
    if buf.len() < 77 || buf[4] != 2 {
        None
    } else {
        checked_model(
            BlobModel {
                kdf: KdfParams {
                    m_cost: be_u32_value(buf.subrange(5, 9)),
                    t_cost: be_u32_value(buf.subrange(9, 13)),
                    p_cost: be_u32_value(buf.subrange(13, 17)),
                },
                salt: buf.subrange(17, 49),
                nonce: buf.subrange(49, 61),
                ciphertext: buf.subrange(61, buf.len() as int),
            },
        )
    }
}

/// Reading the first prototype format:
/// `salt_len || salt || nonce_len || nonce || ciphertext`, with the default
/// KDF parameters.
pub open spec fn parse_blob_legacy(buf: Seq<u8>) -> Option<BlobModel> {
    if buf.len() < 1 {
        None
    } else {
        let sl = buf[0] as int;
        if buf.len() < sl + 2 {
            None
        } else {
            let nl = buf[sl + 1] as int;
            if buf.len() < sl + nl + 2 {
                None
            } else {
                checked_model(
                    BlobModel {
                        kdf: default_kdf_params(),
                        salt: buf.subrange(1, sl + 1),
                        nonce: buf.subrange(sl + 2, sl + nl + 2),
                        ciphertext: buf.subrange(sl + nl + 2, buf.len() as int),
                    },
                )
            }
        }
    }
}

/// Reading decoded blob bytes of either format.
pub open spec fn parse_blob(buf: Seq<u8>) -> Option<BlobModel> {
    if buf.len() > 67_108_864 {
        None
    } else if buf.len() >= 4 && buf.subrange(0, 4) == blob_magic() {
        parse_blob_v2(buf)
    } else {
        parse_blob_legacy(buf)
    }
}

/// Reading the Base64 text of a blob: surrounding whitespace is ignored,
/// empty text or text of more than 89,478,488 UTF-8 bytes is refused, and the
/// decoded bytes are read by `parse_blob`.
pub open spec fn parse_blob_text(s: Seq<char>) -> Option<BlobModel> {
    let t = trimmed(s);
    if t.len() == 0 || encode_utf8(t).len() as usize > 89_478_488 {
        None
    } else {
        match spec_base64_decode(t) {
            Some(buf) => parse_blob(buf),
            None => None,
        }
    }
}

/// An encrypted payload with everything needed to decrypt it but the password.
#[derive(Clone)]
pub struct EncryptedBlob {
    kdf: KdfParams,
    salt: Vec<u8>,
    nonce: Vec<u8>,
    ciphertext: Vec<u8>,
}

impl View for EncryptedBlob {
    type V = BlobModel;

    closed spec fn view(&self) -> BlobModel {
        BlobModel { kdf: self.kdf, salt: self.salt@, nonce: self.nonce@, ciphertext: self.ciphertext@ }
    }
}

impl EncryptedBlob {
    fn new(kdf: KdfParams, salt: Vec<u8>, nonce: Vec<u8>, ciphertext: Vec<u8>) -> (r: Result<
        Self,
        CryptoError,
    >)
        ensures
            match checked_model(BlobModel { kdf, salt: salt@, nonce: nonce@, ciphertext: ciphertext@ }) {
                Some(m) => r matches Ok(b) && b@ == m,
                None => r matches Err(CryptoError::InvalidFormat),
            },
    {
        let blob = Self { kdf, salt, nonce, ciphertext };
        match blob.validate() {
            Ok(()) => Ok(blob),
            Err(e) => Err(e),
        }
    }

    /// A blob made of the given parts as they are. Nothing is checked here:
    /// `decrypt` and `to_base64` check the parts themselves.
    pub fn from_raw_parts(kdf: KdfParams, salt: Vec<u8>, nonce: Vec<u8>, ciphertext: Vec<u8>) -> (r:
        Self)
        ensures
            r@ == (BlobModel { kdf, salt: salt@, nonce: nonce@, ciphertext: ciphertext@ }),
    {
        Self { kdf, salt, nonce, ciphertext }
    }

    pub fn kdf_params(&self) -> (r: KdfParams)
        ensures
            r == self@.kdf,
    {
        self.kdf
    }

    pub fn salt(&self) -> (r: &[u8])
        ensures
            r@ == self@.salt,
    {
        self.salt.as_slice()
    }

    pub fn nonce(&self) -> (r: &[u8])
        ensures
            r@ == self@.nonce,
    {
        self.nonce.as_slice()
    }

    pub fn ciphertext(&self) -> (r: &[u8])
        ensures
            r@ == self@.ciphertext,
    {
        self.ciphertext.as_slice()
    }

    fn validate(&self) -> (r: Result<(), CryptoError>)
        ensures
            r is Ok <==> blob_model_valid(self@),
            r is Err ==> r matches Err(CryptoError::InvalidFormat),
    {
        self.kdf.validate()?;
        if self.salt.len() != SALT_LEN {
            return Err(CryptoError::InvalidFormat);
        }
        if self.nonce.len() != NONCE_LEN {
            return Err(CryptoError::InvalidFormat);
        }
        if self.ciphertext.len() < GCM_TAG_LEN {
            return Err(CryptoError::InvalidFormat);
        }
        Ok(())
    }

    /// The blob in the current binary format (see `blob_bytes`).
    pub fn to_bytes(&self) -> (r: Vec<u8>)
        requires
            blob_model_valid(self@),
        ensures
            r@ == blob_bytes(self@),
    {
        let mut buf: Vec<u8> = Vec::new();
        buf.push(0x53);
        buf.push(0x50);
        buf.push(0x42);
        buf.push(0x32);
        buf.push(BLOB_VERSION);
        push_be_u32(&mut buf, self.kdf.m_cost);
        push_be_u32(&mut buf, self.kdf.t_cost);
        push_be_u32(&mut buf, self.kdf.p_cost);
        buf.extend_from_slice(self.salt.as_slice());
        buf.extend_from_slice(self.nonce.as_slice());
        buf.extend_from_slice(self.ciphertext.as_slice());
        assert(buf@ =~= blob_bytes(self@));
        buf
    }

    /// The blob in the current binary format, as one Base64 string. What
    /// `from_base64` reads of it is the blob again, whenever its binary form
    /// is within the 64 MiB cap that reading imposes.
    pub fn to_base64(&self) -> (r: String)
        requires
            blob_model_valid(self@),
            base64_len_fits(blob_bytes(self@).len() as int),
        ensures
            r@ == spec_base64_encode(blob_bytes(self@)),
            r@.len() > 0,
            forall|i: int| 0 <= i < r@.len() ==> is_base64_char(#[trigger] r@[i]),
            blob_bytes(self@).len() <= 67_108_864 ==> parse_blob_text(r@) == Some(self@),
    {
        let buf = self.to_bytes();
        let text = base64_encode(buf.as_slice());
        proof {
            lemma_base64_encode_shape(buf@);
            lemma_base64_roundtrip(buf@);
            if blob_bytes(self@).len() <= 67_108_864 {
                assert forall|i: int| 0 <= i < text@.len() implies !is_unicode_whitespace(
                    #[trigger] text@[i],
                ) by {
                    assert(is_base64_char(text@[i]));
                }
                lemma_trimmed_no_whitespace(text@);
                assert(is_ascii_chars(text@)) by {
                    assert forall|i: int| 0 <= i < text@.len() implies '\0' <= #[trigger] text@[i]
                        <= '\u{7f}' by {
                        assert(is_base64_char(text@[i]));
                    }
                }
                is_ascii_chars_encode_utf8(text@);
                lemma_blob_bytes_roundtrip(self@);
            }
        }
        text
    }

    /// Reads a blob from its Base64 text (see `parse_blob_text`).
    pub fn from_base64(s: &str) -> (r: Result<Self, CryptoError>)
        ensures
            match parse_blob_text(s@) {
                Some(m) => r matches Ok(b) && b@ == m,
                None => r matches Err(CryptoError::InvalidFormat),
            },
    {
        let t = s.trim();
        if t.is_empty() || t.len() > MAX_BASE64_CHARS {
            return Err(CryptoError::InvalidFormat);
        }
        match base64_decode(t) {
            Ok(buf) => Self::from_decoded(buf.as_slice()),
            Err(_) => Err(CryptoError::InvalidFormat),
        }
    }

    /// Reads decoded blob bytes of the current or the legacy format.
    pub fn from_decoded(buf: &[u8]) -> (r: Result<Self, CryptoError>)
        ensures
            match parse_blob(buf@) {
                Some(m) => r matches Ok(b) && b@ == m,
                None => r matches Err(CryptoError::InvalidFormat),
            },
    {
        if buf.len() > MAX_DECODED_BLOB_BYTES {
            return Err(CryptoError::InvalidFormat);
        }
        if buf.len() >= 4 && buf[0] == 0x53 && buf[1] == 0x50 && buf[2] == 0x42 && buf[3] == 0x32 {
            assert(buf@.subrange(0, 4) =~= blob_magic());
            Self::parse_v2(buf)
        } else {
            assert(buf@.len() >= 4 ==> buf@.subrange(0, 4)[0] == buf@[0]);
            assert(buf@.len() >= 4 ==> buf@.subrange(0, 4)[1] == buf@[1]);
            assert(buf@.len() >= 4 ==> buf@.subrange(0, 4)[2] == buf@[2]);
            assert(buf@.len() >= 4 ==> buf@.subrange(0, 4)[3] == buf@[3]);
            Self::parse_legacy_v1(buf)
        }
    }

    fn parse_v2(buf: &[u8]) -> (r: Result<Self, CryptoError>)
        ensures
            match parse_blob_v2(buf@) {
                Some(m) => r matches Ok(b) && b@ == m,
                None => r matches Err(CryptoError::InvalidFormat),
            },
    {
        let min_len = V2_HEADER_LEN + SALT_LEN + NONCE_LEN + GCM_TAG_LEN;
        if buf.len() < min_len {
            return Err(CryptoError::InvalidFormat);
        }
        let mut cursor: usize = 4;
        let version = buf[cursor];
        cursor = cursor + 1;
        if version != BLOB_VERSION {
            return Err(CryptoError::InvalidFormat);
        }
        let m_cost = read_u32_be(buf, &mut cursor)?;
        let t_cost = read_u32_be(buf, &mut cursor)?;
        let p_cost = read_u32_be(buf, &mut cursor)?;
        let kdf = KdfParams { m_cost, t_cost, p_cost };
        let salt = slice_to_vec(take(buf, &mut cursor, SALT_LEN)?);
        let nonce = slice_to_vec(take(buf, &mut cursor, NONCE_LEN)?);
        let ciphertext = slice_to_vec(slice_subrange(buf, cursor, buf.len()));
        Self::new(kdf, salt, nonce, ciphertext)
    }

    fn parse_legacy_v1(buf: &[u8]) -> (r: Result<Self, CryptoError>)
        ensures
            match parse_blob_legacy(buf@) {
                Some(m) => r matches Ok(b) && b@ == m,
                None => r matches Err(CryptoError::InvalidFormat),
            },
    {
        let mut cursor: usize = 0;
        if buf.len() < 1 {
            return Err(CryptoError::InvalidFormat);
        }
        let salt_len = buf[cursor] as usize;
        cursor = cursor + 1;
        let salt = slice_to_vec(take(buf, &mut cursor, salt_len)?);
        if cursor >= buf.len() {
            return Err(CryptoError::InvalidFormat);
        }
        let nonce_len = buf[cursor] as usize;
        cursor = cursor + 1;
        let nonce = slice_to_vec(take(buf, &mut cursor, nonce_len)?);
        let ciphertext = slice_to_vec(slice_subrange(buf, cursor, buf.len()));
        Self::new(KdfParams::interactive_default(), salt, nonce, ciphertext)
    }
}

/// Reading back the big-endian bytes of a `u32` gives the `u32`.
pub proof fn lemma_be_u32_roundtrip(x: u32)
    ensures
        be_u32_value(be_u32_bytes(x)) == x,
{
    let b = be_u32_bytes(x);
    assert(b[0] == x / 0x100_0000);
    assert(b[1] == (x / 0x1_0000) % 0x100);
    assert(b[2] == (x / 0x100) % 0x100);
    assert(b[3] == x % 0x100);
    assert((x / 0x100_0000) * 0x100_0000 + ((x / 0x1_0000) % 0x100) * 0x1_0000 + ((x / 0x100)
        % 0x100) * 0x100 + x % 0x100 == x) by (nonlinear_arith);
}

/// Reading the bytes that `to_bytes` writes gives the blob back: for every
/// blob that decryption accepts and whose encoding fits under the size cap.
#[verifier::rlimit(40)]
pub proof fn lemma_blob_bytes_roundtrip(m: BlobModel)
    requires
        blob_model_valid(m),
        blob_bytes(m).len() <= 67_108_864,
    ensures
        parse_blob(blob_bytes(m)) == Some(m),
{
    let b = blob_bytes(m);
    lemma_be_u32_roundtrip(m.kdf.m_cost);
    lemma_be_u32_roundtrip(m.kdf.t_cost);
    lemma_be_u32_roundtrip(m.kdf.p_cost);
    assert(b.subrange(0, 4) =~= blob_magic());
    assert(b.subrange(5, 9) =~= be_u32_bytes(m.kdf.m_cost));
    assert(b.subrange(9, 13) =~= be_u32_bytes(m.kdf.t_cost));
    assert(b.subrange(13, 17) =~= be_u32_bytes(m.kdf.p_cost));
    assert(b.subrange(17, 49) =~= m.salt);
    assert(b.subrange(49, 61) =~= m.nonce);
    assert(b.subrange(61, b.len() as int) =~= m.ciphertext);
}

// ---------------------------------------------------------------------------
// Outside crates: Argon2id, AES-256-GCM, the operating system's random source
// and Base64.
// ---------------------------------------------------------------------------

#[verifier::external_type_specification]
#[verifier::external_body]
pub struct ExArgon2Error(argon2::Error);

#[verifier::external_type_specification]
#[verifier::external_body]
pub struct ExAeadError(aes_gcm::Error);

#[verifier::external_type_specification]
#[verifier::external_body]
pub struct ExBase64DecodeError(base64::DecodeError);

/// The `out_len`-byte Argon2id (version 0x13) hash of `password` under `salt`
/// with memory cost `m_cost` KiB, `t_cost` passes and `p_cost` lanes.
pub uninterp spec fn spec_argon2id_hash(
    password: Seq<u8>,
    salt: Seq<u8>,
    m_cost: u32,
    t_cost: u32,
    p_cost: u32,
    out_len: usize,
) -> Seq<u8>;

/// `Argon2::hash_password_into` for an Argon2id, version 0x13 context built
/// by `Params::new(m_cost, t_cost, p_cost, Some(out_len))` and `Argon2::new`.
/// As argon2's source shows, it succeeds exactly when `Params::new` accepts
/// the parameters (at least 8 KiB and 8 KiB per lane, at least one pass,
/// 1 to 2^24 - 1 lanes, an output of 4 to 2^32 - 1 bytes) and the password
/// has at most 2^32 - 1 bytes and the salt 8 to 2^32 - 1 bytes; the output is
/// named by `spec_argon2id_hash` and has `out_len` bytes.
#[verifier::external_body]
fn argon2id_hash(
    password: &[u8],
    salt: &[u8],
    m_cost: u32,
    t_cost: u32,
    p_cost: u32,
    out_len: usize,
) -> (r: Result<Vec<u8>, argon2::Error>)
    requires
        p_cost <= 0x1fff_ffff,
    ensures
        r is Ok <==> {
            &&& 8 <= m_cost
            &&& p_cost * 8 <= m_cost
            &&& 1 <= t_cost
            &&& 1 <= p_cost <= 0xff_ffff
            &&& 4 <= out_len <= 0xffff_ffff
            &&& password@.len() <= 0xffff_ffff
            &&& 8 <= salt@.len() <= 0xffff_ffff
        },
        r matches Ok(k) ==> k@ == spec_argon2id_hash(password@, salt@, m_cost, t_cost, p_cost, out_len)
            && k@.len() == out_len,
{
    let params = argon2::Params::new(m_cost, t_cost, p_cost, Some(out_len))?;
    let ctx = argon2::Argon2::new(argon2::Algorithm::Argon2id, argon2::Version::V0x13, params);
    let mut out = vec![0u8; out_len];
    ctx.hash_password_into(password, salt, &mut out)?;
    Ok(out)
}

/// The AES-256-GCM ciphertext (with its 16-byte tag appended) of `plaintext`
/// under `key` and `nonce`, with no associated data.
pub uninterp spec fn spec_aes256gcm_seal(key: Seq<u8>, nonce: Seq<u8>, plaintext: Seq<u8>) -> Seq<u8>;

/// The AES-256-GCM decryption of `ciphertext` under `key` and `nonce`:
/// `None` where the tag does not verify.
pub uninterp spec fn spec_aes256gcm_open(key: Seq<u8>, nonce: Seq<u8>, ciphertext: Seq<u8>) -> Option<
    Seq<u8>,
>;

/// `Aead::encrypt` of `Aes256Gcm` (the key and nonce taken by `from_slice`,
/// which panics on other lengths). As aes-gcm's source shows, it fails only
/// for a plaintext over 2^36 bytes; the ciphertext is the plaintext's length
/// plus the 16-byte tag, and, as for every AEAD, decrypting it under the
/// same key and nonce gives the plaintext back.
#[verifier::external_body]
fn aes256gcm_encrypt(key: &[u8], nonce: &[u8], plaintext: &[u8]) -> (r: Result<
    Vec<u8>,
    aes_gcm::Error,
>)
    requires
        key@.len() == 32,
        nonce@.len() == 12,
    ensures
        r is Ok <==> plaintext@.len() <= 0x10_0000_0000,
        r matches Ok(c) ==> {
            &&& c@ == spec_aes256gcm_seal(key@, nonce@, plaintext@)
            &&& c@.len() == plaintext@.len() + 16
            &&& spec_aes256gcm_open(key@, nonce@, c@) == Some(plaintext@)
        },
{
    let cipher = Aes256Gcm::new(Key::<Aes256Gcm>::from_slice(key));
    cipher.encrypt(Nonce::from_slice(nonce), plaintext)
}

/// `Aead::decrypt` of `Aes256Gcm`: the plaintext exactly when the tag
/// verifies, as named by `spec_aes256gcm_open`.
#[verifier::external_body]
fn aes256gcm_decrypt(key: &[u8], nonce: &[u8], ciphertext: &[u8]) -> (r: Result<
    Vec<u8>,
    aes_gcm::Error,
>)
    requires
        key@.len() == 32,
        nonce@.len() == 12,
    ensures
        match r {
            Ok(p) => spec_aes256gcm_open(key@, nonce@, ciphertext@) == Some(p@),
            Err(_) => spec_aes256gcm_open(key@, nonce@, ciphertext@) is None,
        },
{
    let cipher = Aes256Gcm::new(Key::<Aes256Gcm>::from_slice(key));
    cipher.decrypt(Nonce::from_slice(nonce), ciphertext)
}

#[verifier::external_type_specification]
#[verifier::external_body]
pub struct ExRandError(aes_gcm::aead::rand_core::Error);

/// `OsRng::try_fill_bytes` on a buffer of `len` bytes: `len` random bytes
/// from the operating system, or the error that `getrandom` reports. Nothing
/// is claimed of the values, nor of when the source fails.
#[verifier::external_body]
pub(crate) fn random_bytes(len: usize) -> (r: Result<Vec<u8>, aes_gcm::aead::rand_core::Error>)
    ensures
        r matches Ok(v) ==> v@.len() == len,
{
    let mut buf = vec![0u8; len];
    match OsRng.try_fill_bytes(&mut buf) {
        Ok(()) => Ok(buf),
        Err(e) => Err(e),
    }
}

/// `Zeroize::zeroize` on a byte vector: every byte is overwritten with zero
/// and the vector is cleared.
#[verifier::external_body]
fn wipe_bytes(v: &mut Vec<u8>)
    ensures
        final(v)@ == Seq::<u8>::empty(),
{
    v.zeroize();
}

/// The characters of standard Base64 text.
pub open spec fn is_base64_char(c: char) -> bool {
    ||| 'A' <= c <= 'Z'
    ||| 'a' <= c <= 'z'
    ||| '0' <= c <= '9'
    ||| c == '+'
    ||| c == '/'
    ||| c == '='
}

/// The Base64 text of `n` bytes has a length that `usize` holds (the encoder
/// panics otherwise).
pub open spec fn base64_len_fits(n: int) -> bool {
    (n + 2) / 3 * 4 <= usize::MAX
}

/// The character of the standard Base64 alphabet for the 6-bit value `v`:
/// `A`-`Z`, `a`-`z`, `0`-`9`, `+`, `/`.
pub open spec fn base64_char(v: int) -> char {
    if v < 26 {
        (65 + v) as char
    } else if v < 52 {
        (71 + v) as char
    } else if v < 62 {
        (v - 4) as char
    } else if v == 62 {
        '+'
    } else {
        '/'
    }
}

/// The four characters for one group of up to three bytes; a group of one
/// or two bytes is padded with `=`.
pub open spec fn base64_group(b: Seq<u8>) -> Seq<char> {
    let x = b[0] as int;
    if b.len() == 1 {
        seq![base64_char(x / 4), base64_char(x % 4 * 16), '=', '=']
    } else {
        let y = b[1] as int;
        if b.len() == 2 {
            seq![base64_char(x / 4), base64_char(x % 4 * 16 + y / 16), base64_char(y % 16 * 4), '=']
        } else {
            let z = b[2] as int;
            seq![
                base64_char(x / 4),
                base64_char(x % 4 * 16 + y / 16),
                base64_char(y % 16 * 4 + z / 64),
                base64_char(z % 64),
            ]
        }
    }
}

/// The standard, padded Base64 encoding (RFC 4648) of `bytes`: four
/// characters for every group of three bytes, the last group padded.
pub open spec fn spec_base64_encode(bytes: Seq<u8>) -> Seq<char>
    decreases bytes.len(),
{
    if bytes.len() == 0 {
        Seq::empty()
    } else if bytes.len() <= 3 {
        base64_group(bytes)
    } else {
        base64_group(bytes.take(3)) + spec_base64_encode(bytes.skip(3))
    }
}

/// What the standard Base64 text `text` decodes to: the bytes whose padded
/// encoding it is, or `None` where it is no such encoding (a character
/// outside the alphabet, a wrong length, padding that is not canonical, or
/// bits left over that are not zero).
pub open spec fn spec_base64_decode(text: Seq<char>) -> Option<Seq<u8>> {
    if exists|b: Seq<u8>| #[trigger] spec_base64_encode(b) == text {
        Some(choose|b: Seq<u8>| #[trigger] spec_base64_encode(b) == text)
    } else {
        None
    }
}

proof fn lemma_base64_group(b: Seq<u8>)
    requires
        1 <= b.len() <= 3,
    ensures
        base64_group(b).len() == 4,
        forall|i: int| 0 <= i < 4 ==> is_base64_char(#[trigger] base64_group(b)[i]),
        base64_group(b)[0] != '=' && base64_group(b)[1] != '=',
        base64_group(b)[2] == '=' <==> b.len() == 1,
        base64_group(b)[3] == '=' <==> b.len() <= 2,
{
    let x = b[0] as int;
    assert(0 <= x / 4 < 64 && 0 <= x % 4 * 16 < 64);
    if b.len() >= 2 {
        let y = b[1] as int;
        assert(0 <= x % 4 * 16 + y / 16 < 64 && 0 <= y % 16 * 4 < 64);
        if b.len() == 3 {
            let z = b[2] as int;
            assert(0 <= y % 16 * 4 + z / 64 < 64 && 0 <= z % 64 < 64);
        }
    }
}

proof fn lemma_base64_char_injective(v: int, w: int)
    requires
        0 <= v < 64,
        0 <= w < 64,
        base64_char(v) == base64_char(w),
    ensures
        v == w,
{
}

proof fn lemma_base64_group_injective(a: Seq<u8>, b: Seq<u8>)
    requires
        1 <= a.len() <= 3,
        1 <= b.len() <= 3,
        base64_group(a) == base64_group(b),
    ensures
        a == b,
{
    lemma_base64_group(a);
    lemma_base64_group(b);
    assert(a.len() == b.len());
    let (a0, b0) = (a[0], b[0]);
    let ga = base64_group(a);
    let gb = base64_group(b);
    assert(ga[0] == gb[0] && ga[1] == gb[1] && ga[2] == gb[2] && ga[3] == gb[3]);
    lemma_base64_char_injective(a0 as int / 4, b0 as int / 4);
    if a.len() == 1 {
        lemma_base64_char_injective(a0 as int % 4 * 16, b0 as int % 4 * 16);
        assert(a0 == b0) by (nonlinear_arith)
            requires
                a0 as int / 4 == b0 as int / 4,
                a0 as int % 4 * 16 == b0 as int % 4 * 16,
        ;
    } else {
        let (a1, b1) = (a[1], b[1]);
        lemma_base64_char_injective(
            a0 as int % 4 * 16 + a1 as int / 16,
            b0 as int % 4 * 16 + b1 as int / 16,
        );
        if a.len() == 2 {
            lemma_base64_char_injective(a1 as int % 16 * 4, b1 as int % 16 * 4);
            assert(a0 == b0 && a1 == b1) by (nonlinear_arith)
                requires
                    a0 as int / 4 == b0 as int / 4,
                    a0 as int % 4 * 16 + a1 as int / 16 == b0 as int % 4 * 16 + b1 as int / 16,
                    a1 as int % 16 * 4 == b1 as int % 16 * 4,
            ;
        } else {
            let (a2, b2) = (a[2], b[2]);
            lemma_base64_char_injective(
                a1 as int % 16 * 4 + a2 as int / 64,
                b1 as int % 16 * 4 + b2 as int / 64,
            );
            lemma_base64_char_injective(a2 as int % 64, b2 as int % 64);
            assert(a0 == b0 && a1 == b1 && a2 == b2) by (nonlinear_arith)
                requires
                    a0 as int / 4 == b0 as int / 4,
                    a0 as int % 4 * 16 + a1 as int / 16 == b0 as int % 4 * 16 + b1 as int / 16,
                    a1 as int % 16 * 4 + a2 as int / 64 == b1 as int % 16 * 4 + b2 as int / 64,
                    a2 as int % 64 == b2 as int % 64,
            ;
        }
    }
    assert(a =~= b);
}

/// The encoding has 4 characters for every started group of 3 bytes, all of
/// them of the Base64 alphabet or padding.
pub proof fn lemma_base64_encode_shape(b: Seq<u8>)
    ensures
        spec_base64_encode(b).len() == (b.len() + 2) / 3 * 4,
        forall|i: int|
            0 <= i < spec_base64_encode(b).len() ==> is_base64_char(
                #[trigger] spec_base64_encode(b)[i],
            ),
    decreases b.len(),
{
    if b.len() == 0 {
    } else if b.len() <= 3 {
        lemma_base64_group(b);
    } else {
        lemma_base64_group(b.take(3));
        lemma_base64_encode_shape(b.skip(3));
        let g = base64_group(b.take(3));
        let t = spec_base64_encode(b.skip(3));
        assert forall|i: int| 0 <= i < (g + t).len() implies is_base64_char(#[trigger] (g + t)[i]) by {
            if i < 4 {
                assert((g + t)[i] == g[i]);
            } else {
                assert((g + t)[i] == t[i - 4]);
            }
        }
    }
}

/// Different bytes have different encodings.
pub proof fn lemma_base64_encode_injective(a: Seq<u8>, b: Seq<u8>)
    requires
        spec_base64_encode(a) == spec_base64_encode(b),
    ensures
        a == b,
    decreases a.len(),
{
    lemma_base64_encode_shape(a);
    lemma_base64_encode_shape(b);
    let e = spec_base64_encode(a);
    if a.len() == 0 || b.len() == 0 {
        assert(a.len() == 0 && b.len() == 0);
        assert(a =~= b);
    } else {
        let ga = if a.len() <= 3 { a } else { a.take(3) };
        let gb = if b.len() <= 3 { b } else { b.take(3) };
        lemma_base64_group(ga);
        lemma_base64_group(gb);
        assert(e.take(4) =~= base64_group(ga)) by {
            if a.len() > 3 {
                lemma_base64_encode_shape(a.skip(3));
            }
        }
        assert(e.take(4) =~= base64_group(gb)) by {
            if b.len() > 3 {
                lemma_base64_encode_shape(b.skip(3));
            }
        }
        if a.len() <= 3 && b.len() > 3 {
            lemma_base64_encode_shape(b.skip(3));
            assert(false);
        } else if a.len() > 3 && b.len() <= 3 {
            lemma_base64_encode_shape(a.skip(3));
            assert(false);
        } else if a.len() <= 3 {
            lemma_base64_group_injective(a, b);
        } else {
            lemma_base64_group_injective(a.take(3), b.take(3));
            assert(spec_base64_encode(a.skip(3)) =~= e.skip(4));
            assert(spec_base64_encode(b.skip(3)) =~= e.skip(4));
            lemma_base64_encode_injective(a.skip(3), b.skip(3));
            assert(a =~= a.take(3) + a.skip(3));
            assert(b =~= b.take(3) + b.skip(3));
        }
    }
}

/// Decoding the encoding of `b` gives `b` back.
pub proof fn lemma_base64_roundtrip(b: Seq<u8>)
    ensures
        spec_base64_decode(spec_base64_encode(b)) == Some(b),
{
    let t = spec_base64_encode(b);
    assert(exists|x: Seq<u8>| #[trigger] spec_base64_encode(x) == t);
    let c = choose|x: Seq<u8>| #[trigger] spec_base64_encode(x) == t;
    lemma_base64_encode_injective(c, b);
}

/// `Engine::encode` of the standard engine: the padded Base64 text of the
/// bytes (see `spec_base64_encode`).
#[verifier::external_body]
fn base64_encode(bytes: &[u8]) -> (r: String)
    requires
        base64_len_fits(bytes@.len() as int),
    ensures
        r@ == spec_base64_encode(bytes@),
{
    BASE64.encode(bytes)
}

/// `Engine::decode` of the standard engine, which requires canonical padding
/// and no leftover bits: it accepts exactly the padded encodings of byte
/// strings and gives their bytes (see `spec_base64_decode`).
#[verifier::external_body]
fn base64_decode(text: &str) -> (r: Result<Vec<u8>, base64::DecodeError>)
    ensures
        match r {
            Ok(v) => spec_base64_decode(text@) == Some(v@),
            Err(_) => spec_base64_decode(text@) is None,
        },
{
    BASE64.decode(text)
}

// ---------------------------------------------------------------------------
// Key derivation, encryption and decryption.
// ---------------------------------------------------------------------------

/// The key that Argon2id derives from `password` under `salt` and `kdf`.
pub open spec fn derived_key(password: Seq<char>, salt: Seq<u8>, kdf: KdfParams) -> Seq<u8> {
    spec_argon2id_hash(encode_utf8(password), salt, kdf.m_cost, kdf.t_cost, kdf.p_cost, 32)
}

/// Key derivation accepts the password: its UTF-8 encoding has at most
/// 2^32 - 1 bytes.
pub open spec fn password_derivable(password: Seq<char>) -> bool {
    encode_utf8(password).len() <= 0xffff_ffff
}

/// The plaintext that `m` holds under `password`, if its tag verifies.
pub open spec fn open_blob(m: BlobModel, password: Seq<char>) -> Option<Seq<u8>> {
    spec_aes256gcm_open(derived_key(password, m.salt, m.kdf), m.nonce, m.ciphertext)
}

/// What decrypting `m` with `password` gives.
pub open spec fn decryption(m: BlobModel, password: Seq<char>) -> Result<Seq<u8>, CryptoError> {
    if !blob_model_valid(m) {
        Err(CryptoError::InvalidFormat)
    } else if !password_derivable(password) {
        Err(CryptoError::KeyDerivationFailed)
    } else {
        match open_blob(m, password) {
            Some(p) => Ok(p),
            None => Err(CryptoError::DecryptionFailed),
        }
    }
}

/// `r` holds the bytes or the error that `s` describes.
pub open spec fn same_bytes_result(r: Result<Vec<u8>, CryptoError>, s: Result<Seq<u8>, CryptoError>) -> bool {
    match (r, s) {
        (Ok(v), Ok(p)) => v@ == p,
        (Err(e), Err(f)) => e == f,
        _ => false,
    }
}

fn derive_key(password: &str, salt: &[u8], kdf: KdfParams) -> (r: Result<Vec<u8>, CryptoError>)
    ensures
        !kdf_params_valid(kdf) ==> r matches Err(CryptoError::InvalidFormat),
        kdf_params_valid(kdf) && salt@.len() != 32 ==> r matches Err(CryptoError::InvalidFormat),
        kdf_params_valid(kdf) && salt@.len() == 32 ==> {
            if password_derivable(password@) {
                r matches Ok(k) && k@ == derived_key(password@, salt@, kdf) && k@.len() == 32
            } else {
                r matches Err(CryptoError::KeyDerivationFailed)
            }
        },
{
    kdf.validate()?;
    if salt.len() != SALT_LEN {
        return Err(CryptoError::InvalidFormat);
    }
    match argon2id_hash(password.as_bytes(), salt, kdf.m_cost, kdf.t_cost, kdf.p_cost, KEY_LEN) {
        Ok(k) => Ok(k),
        Err(_) => Err(CryptoError::KeyDerivationFailed),
    }
}

/// Encrypts `plaintext` under `password` with the default KDF parameters
/// (see `encrypt_with_params`): it succeeds for every derivable password
/// and every plaintext within the cipher's limit, unless the operating
/// system's random source fails.
pub fn encrypt(plaintext: &[u8], password: &str) -> (r: Result<EncryptedBlob, CryptoError>)
    ensures
        match sealing_refusal(plaintext@, password@, default_kdf_params()) {
            Some(e) => r == Err::<EncryptedBlob, CryptoError>(e),
            None => r is Ok || r matches Err(CryptoError::RandomSourceFailed),
        },
        !password_derivable(password@) ==> r matches Err(CryptoError::KeyDerivationFailed),
        password_derivable(password@) && plaintext@.len() > 0x10_0000_0000 ==> r matches Err(
            CryptoError::EncryptionFailed,
        ),
        password_derivable(password@) && plaintext@.len() <= 0x10_0000_0000 ==> (r is Ok
            || r matches Err(CryptoError::RandomSourceFailed)),
        r matches Ok(b) ==> sealing(plaintext@, password@, default_kdf_params(), b@.salt, b@.nonce)
            == Ok::<BlobModel, CryptoError>(b@),
        r matches Ok(b) ==> sealed_under(b@, plaintext@, password@, default_kdf_params()),
{
    encrypt_with_params(plaintext, password, KdfParams::interactive_default())
}

/// `m` is a blob that decryption accepts, made with `kdf`, whose ciphertext
/// is `plaintext` sealed under the key derived from `password` and `m`'s salt
/// (16 bytes longer than it) and which therefore opens to `plaintext` again.
pub open spec fn sealed_under(m: BlobModel, plaintext: Seq<u8>, password: Seq<char>, kdf: KdfParams) -> bool {
    &&& m.kdf == kdf
    &&& blob_model_valid(m)
    &&& password_derivable(password)
    &&& m.ciphertext == spec_aes256gcm_seal(derived_key(password, m.salt, kdf), m.nonce, plaintext)
    &&& m.ciphertext.len() == plaintext.len() + 16
    &&& open_blob(m, password) == Some(plaintext)
}

/// What sealing `plaintext` under `password` with `kdf`, `salt` and `nonce`
/// gives: the parts are checked first (KDF parameters, a 32-byte salt, a
/// 12-byte nonce), then the key is derived and the plaintext sealed.
pub open spec fn sealing(
    plaintext: Seq<u8>,
    password: Seq<char>,
    kdf: KdfParams,
    salt: Seq<u8>,
    nonce: Seq<u8>,
) -> Result<BlobModel, CryptoError> {
    if !kdf_params_valid(kdf) || salt.len() != 32 || nonce.len() != 12 {
        Err(CryptoError::InvalidFormat)
    } else if !password_derivable(password) {
        Err(CryptoError::KeyDerivationFailed)
    } else if plaintext.len() > 0x10_0000_0000 {
        Err(CryptoError::EncryptionFailed)
    } else {
        Ok(
            BlobModel {
                kdf,
                salt,
                nonce,
                ciphertext: spec_aes256gcm_seal(derived_key(password, salt, kdf), nonce, plaintext),
            },
        )
    }
}

/// `r` holds the blob or the error that `s` describes.
pub open spec fn same_blob_result(r: Result<EncryptedBlob, CryptoError>, s: Result<BlobModel, CryptoError>) -> bool {
    match (r, s) {
        (Ok(b), Ok(m)) => b@ == m,
        (Err(e), Err(f)) => e == f,
        _ => false,
    }
}

/// Seals `plaintext` under `password` with the given KDF parameters, salt
/// and nonce (see `sealing`). The derived key is wiped once it has been
/// used.
pub fn seal_with(plaintext: &[u8], password: &str, kdf: KdfParams, salt: &[u8], nonce: &[u8]) -> (r:
    Result<EncryptedBlob, CryptoError>)
    ensures
        same_blob_result(r, sealing(plaintext@, password@, kdf, salt@, nonce@)),
        r matches Ok(b) ==> sealed_under(b@, plaintext@, password@, kdf),
{
    kdf.validate()?;
    if salt.len() != SALT_LEN || nonce.len() != NONCE_LEN {
        return Err(CryptoError::InvalidFormat);
    }
    let mut key = derive_key(password, salt, kdf)?;
    let sealed = aes256gcm_encrypt(key.as_slice(), nonce, plaintext);
    wipe_bytes(&mut key);
    let ciphertext = match sealed {
        Ok(c) => c,
        Err(_) => return Err(CryptoError::EncryptionFailed),
    };
    EncryptedBlob::new(kdf, slice_to_vec(salt), slice_to_vec(nonce), ciphertext)
}

/// The error with which sealing `plaintext` under `password` and `kdf` is
/// refused whatever the salt and nonce: invalid KDF parameters, a password
/// that key derivation does not take, or a plaintext over the cipher's
/// limit of 2^36 bytes; `None` where sealing succeeds with any 32-byte salt
/// and 12-byte nonce (see `lemma_sealing_succeeds`).
pub open spec fn sealing_refusal(plaintext: Seq<u8>, password: Seq<char>, kdf: KdfParams) -> Option<
    CryptoError,
> {
    if !kdf_params_valid(kdf) {
        Some(CryptoError::InvalidFormat)
    } else if !password_derivable(password) {
        Some(CryptoError::KeyDerivationFailed)
    } else if plaintext.len() > 0x10_0000_0000 {
        Some(CryptoError::EncryptionFailed)
    } else {
        None
    }
}

/// Sealing succeeds exactly when nothing refuses it: with a 32-byte salt
/// and a 12-byte nonce, `sealing` gives a blob that holds them, the KDF
/// parameters, and a ciphertext 16 bytes longer than the plaintext, which
/// decrypts with the password to the plaintext; otherwise it gives the
/// refusal.
pub proof fn lemma_sealing_succeeds(
    plaintext: Seq<u8>,
    password: Seq<char>,
    kdf: KdfParams,
    salt: Seq<u8>,
    nonce: Seq<u8>,
)
    requires
        salt.len() == 32,
        nonce.len() == 12,
    ensures
        match sealing_refusal(plaintext, password, kdf) {
            Some(e) => sealing(plaintext, password, kdf, salt, nonce) == Err::<BlobModel, CryptoError>(e),
            None => sealing(plaintext, password, kdf, salt, nonce) matches Ok(m) && m.kdf == kdf
                && m.salt == salt && m.nonce == nonce,
        },
{
}

/// The checks that sealing makes before any random bytes are drawn.
pub(crate) fn sealing_precheck(plaintext: &[u8], password: &str, kdf: KdfParams) -> (r: Result<(), CryptoError>)
    ensures
        match sealing_refusal(plaintext@, password@, kdf) {
            Some(e) => r == Err::<(), CryptoError>(e),
            None => r is Ok,
        },
{
    kdf.validate()?;
    let password_bytes = password.as_bytes().len();
    assert(password.spec_bytes() == encode_utf8(password@));
    if password_bytes > 0xffff_ffff {
        return Err(CryptoError::KeyDerivationFailed);
    }
    let plaintext_bytes = plaintext.len() as u64;
    assert(plaintext_bytes == plaintext@.len());
    if plaintext_bytes > 0x10_0000_0000u64 {
        return Err(CryptoError::EncryptionFailed);
    }
    Ok(())
}

/// Encrypts `plaintext` under `password` with a fresh random salt and nonce
/// and the given KDF parameters (see `seal_with`). It succeeds on every
/// input that `sealing_refusal` does not refuse, unless the operating
/// system's random source fails (`RandomSourceFailed`).
pub fn encrypt_with_params(plaintext: &[u8], password: &str, kdf: KdfParams) -> (r: Result<
    EncryptedBlob,
    CryptoError,
>)
    ensures
        match sealing_refusal(plaintext@, password@, kdf) {
            Some(e) => r == Err::<EncryptedBlob, CryptoError>(e),
            None => r is Ok || r matches Err(CryptoError::RandomSourceFailed),
        },
        !kdf_params_valid(kdf) ==> r matches Err(CryptoError::InvalidFormat),
        kdf_params_valid(kdf) && !password_derivable(password@) ==> r matches Err(
            CryptoError::KeyDerivationFailed,
        ),
        kdf_params_valid(kdf) && password_derivable(password@) && plaintext@.len() > 0x10_0000_0000
            ==> r matches Err(CryptoError::EncryptionFailed),
        r matches Ok(b) ==> sealing(plaintext@, password@, kdf, b@.salt, b@.nonce) == Ok::<
            BlobModel,
            CryptoError,
        >(b@),
        r matches Ok(b) ==> sealed_under(b@, plaintext@, password@, kdf),
{
    sealing_precheck(plaintext, password, kdf)?;
    let salt = match random_bytes(SALT_LEN) {
        Ok(s) => s,
        Err(_) => return Err(CryptoError::RandomSourceFailed),
    };
    let nonce = match random_bytes(NONCE_LEN) {
        Ok(n) => n,
        Err(_) => return Err(CryptoError::RandomSourceFailed),
    };
    proof {
        lemma_sealing_succeeds(plaintext@, password@, kdf, salt@, nonce@);
    }
    seal_with(plaintext, password, kdf, salt.as_slice(), nonce.as_slice())
}

/// Decrypts `blob` with `password`: the blob's parts are checked first, then
/// the key is derived and the tag verified.
pub fn decrypt(blob: &EncryptedBlob, password: &str) -> (r: Result<Vec<u8>, CryptoError>)
    ensures
        same_bytes_result(r, decryption(blob@, password@)),
{
    blob.validate()?;
    let mut key = derive_key(password, blob.salt(), blob.kdf_params())?;
    let opened = aes256gcm_decrypt(key.as_slice(), blob.nonce(), blob.ciphertext());
    wipe_bytes(&mut key);
    match opened {
        Ok(p) => Ok(p),
        Err(_) => Err(CryptoError::DecryptionFailed),
    }
}

/// Decryption gives back what encryption sealed: a blob that `encrypt` or
/// `encrypt_with_params` returned for `plaintext` and `password` decrypts
/// with `password` to `plaintext`.
pub proof fn lemma_decrypt_after_encrypt(m: BlobModel, plaintext: Seq<u8>, password: Seq<char>, kdf: KdfParams)
    requires
        sealed_under(m, plaintext, password, kdf),
    ensures
        decryption(m, password) == Ok::<Seq<u8>, CryptoError>(plaintext),
{
}

fn push_be_u32(buf: &mut Vec<u8>, x: u32)
    ensures
        final(buf)@ == old(buf)@ + be_u32_bytes(x),
{
    buf.push((x / 0x100_0000) as u8);
    buf.push(((x / 0x1_0000) % 0x100) as u8);
    buf.push(((x / 0x100) % 0x100) as u8);
    buf.push((x % 0x100) as u8);
    assert(final(buf)@ =~= old(buf)@ + be_u32_bytes(x));
}

fn read_u32_be(buf: &[u8], cursor: &mut usize) -> (r: Result<u32, CryptoError>)
    ensures
        *old(cursor) + 4 <= buf@.len() ==> {
            &&& r == Ok::<u32, CryptoError>(
                be_u32_value(buf@.subrange(*old(cursor) as int, *old(cursor) + 4)),
            )
            &&& *final(cursor) == *old(cursor) + 4
        },
        *old(cursor) + 4 > buf@.len() ==> r matches Err(CryptoError::InvalidFormat),
{
    let bytes = take(buf, cursor, 4)?;
    let v = bytes[0] as u32 * 0x100_0000 + bytes[1] as u32 * 0x1_0000 + bytes[2] as u32 * 0x100
        + bytes[3] as u32;
    Ok(v)
}

fn take<'a>(buf: &'a [u8], cursor: &mut usize, len: usize) -> (r: Result<&'a [u8], CryptoError>)
    ensures
        *old(cursor) + len <= buf@.len() ==> {
            &&& r matches Ok(out) && out@ == buf@.subrange(*old(cursor) as int, *old(cursor) + len)
            &&& *final(cursor) == *old(cursor) + len
        },
        *old(cursor) + len > buf@.len() ==> {
            &&& r matches Err(CryptoError::InvalidFormat)
            &&& *final(cursor) == *old(cursor)
        },
{
    let buf_len = buf.len();
    let end = match cursor.checked_add(len) {
        Some(e) => e,
        None => return Err(CryptoError::InvalidFormat),
    };
    if end > buf_len {
        return Err(CryptoError::InvalidFormat);
    }
    let out = slice_subrange(buf, *cursor, end);
    *cursor = end;
    Ok(out)
}

} // verus!
